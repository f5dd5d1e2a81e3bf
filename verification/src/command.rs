//! The console command language of the top-level loop: `/quit`,
//! `/users`, `/connect <nickname>`, and anything else is a line to
//! broadcast. Input is trimmed first; `/connect` wants exactly one
//! nickname token after it.

use vstd::prelude::*;

use crate::bytes::{bytes_eq, copy_range, has_prefix, is_ws, is_ws_byte, starts_with, trim_bytes,
    trim_spec};

verus! {

/// One parsed console line.
pub enum Command {
    /// `/quit`: leave the program.
    Quit,
    /// `/users`: show the active peers.
    ListUsers,
    /// `/connect <nickname>`: open a private session to that peer.
    Connect { nickname: Vec<u8> },
    /// A `/connect` line without exactly one nickname after it.
    ConnectUsage,
    /// Anything else: broadcast the trimmed line to the group.
    Broadcast { payload: Vec<u8> },
}

/// The bytes of `/quit`.
pub open spec fn quit_cmd() -> Seq<u8> {
    seq![47u8, 113u8, 117u8, 105u8, 116u8]
}

/// The bytes of `/users`.
pub open spec fn users_cmd() -> Seq<u8> {
    seq![47u8, 117u8, 115u8, 101u8, 114u8, 115u8]
}

/// The bytes of `/connect ` — the trailing space included.
pub open spec fn connect_prefix() -> Seq<u8> {
    seq![47u8, 99u8, 111u8, 110u8, 110u8, 101u8, 99u8, 116u8, 32u8]
}

/// True when `s` is one non-empty whitespace-free token.
pub open spec fn is_single_token(s: Seq<u8>) -> bool {
    s.len() > 0 && (forall|i: int| 0 <= i < s.len() ==> !is_ws(s[i]))
}

fn quit_cmd_vec() -> (r: Vec<u8>)
    ensures
        r@ == quit_cmd(),
{
    let mut v: Vec<u8> = Vec::new();
    v.push(47);
    v.push(113);
    v.push(117);
    v.push(105);
    v.push(116);
    proof {
        assert(v@ =~= quit_cmd());
    }
    v
}

fn users_cmd_vec() -> (r: Vec<u8>)
    ensures
        r@ == users_cmd(),
{
    let mut v: Vec<u8> = Vec::new();
    v.push(47);
    v.push(117);
    v.push(115);
    v.push(101);
    v.push(114);
    v.push(115);
    proof {
        assert(v@ =~= users_cmd());
    }
    v
}

fn connect_prefix_vec() -> (r: Vec<u8>)
    ensures
        r@ == connect_prefix(),
{
    let mut v: Vec<u8> = Vec::new();
    v.push(47);
    v.push(99);
    v.push(111);
    v.push(110);
    v.push(110);
    v.push(101);
    v.push(99);
    v.push(116);
    v.push(32);
    proof {
        assert(v@ =~= connect_prefix());
    }
    v
}

fn single_token(s: &Vec<u8>) -> (r: bool)
    ensures
        r == is_single_token(s@),
{
    if s.len() == 0 {
        return false;
    }
    let mut i: usize = 0;
    while i < s.len()
        invariant
            i <= s@.len(),
            forall|j: int| 0 <= j < i ==> !is_ws(s@[j]),
        decreases s@.len() - i,
    {
        if is_ws_byte(s[i]) {
            return false;
        }
        i = i + 1;
    }
    true
}

/// Parses one console line, trimmed, into the command it means.
pub fn parse_command(line: &Vec<u8>) -> (r: Command)
    ensures
        ({
            let t = trim_spec(line@);
            if t == quit_cmd() {
                r is Quit
            } else if t == users_cmd() {
                r is ListUsers
            } else if starts_with(t, connect_prefix()) {
                let rest = trim_spec(t.skip(9));
                if is_single_token(rest) {
                    r matches Command::Connect { nickname } && nickname@ == rest
                } else {
                    r is ConnectUsage
                }
            } else {
                r matches Command::Broadcast { payload } && payload@ == t
            }
        }),
{
    let t = trim_bytes(line);
    let quit = quit_cmd_vec();
    if bytes_eq(&t, &quit) {
        return Command::Quit;
    }
    let users = users_cmd_vec();
    if bytes_eq(&t, &users) {
        return Command::ListUsers;
    }
    let prefix = connect_prefix_vec();
    if has_prefix(&t, &prefix) {
        let rest_full = copy_range(&t, 9, t.len());
        proof {
            assert(rest_full@ =~= t@.skip(9));
        }
        let rest = trim_bytes(&rest_full);
        if single_token(&rest) {
            Command::Connect { nickname: rest }
        } else {
            Command::ConnectUsage
        }
    } else {
        Command::Broadcast { payload: t }
    }
}

} // verus!
