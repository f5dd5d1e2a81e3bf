//! The wire protocol: frames are UTF-8 byte strings of one of three
//! shapes, `HELLO:<nickname>`, `MSG:<id>:<payload>` and `ACK:<id>`.
//! A message id is a non-negative decimal integer; a message payload may
//! itself contain colons, so a message is split on the first two colons
//! only. Anything else is malformed and parses to nothing.

use vstd::prelude::*;

use crate::bytes::{copy_range, has_prefix, starts_with};

verus! {

// ---------------------------------------------------------------------
// Decimal numerals
// ---------------------------------------------------------------------

/// True when `b` is an ASCII decimal digit.
pub open spec fn is_digit(b: u8) -> bool {
    48 <= b && b <= 57
}

/// True when every byte of `s` is an ASCII decimal digit.
pub open spec fn all_digits(s: Seq<u8>) -> bool {
    forall|i: int| 0 <= i < s.len() ==> is_digit(s[i])
}

/// The value of a digit string, most significant digit first.
pub open spec fn digits_val(s: Seq<u8>) -> int
    decreases s.len(),
{
    if s.len() == 0 {
        0
    } else {
        digits_val(s.drop_last()) * 10 + (s.last() - 48)
    }
}

/// The shortest decimal numeral of `n`, as ASCII digits.
pub open spec fn dec_rep(n: nat) -> Seq<u8>
    decreases n,
{
    if n < 10 {
        seq![(n + 48) as u8]
    } else {
        dec_rep(n / 10).push((n % 10 + 48) as u8)
    }
}

proof fn lemma_dec_rep_digits(n: nat)
    ensures
        dec_rep(n).len() >= 1,
        all_digits(dec_rep(n)),
    decreases n,
{
    if n >= 10 {
        lemma_dec_rep_digits(n / 10);
    }
}

proof fn lemma_dec_rep_val(n: nat)
    ensures
        digits_val(dec_rep(n)) == n,
    decreases n,
{
    if n < 10 {
        assert(dec_rep(n) =~= seq![(n + 48) as u8]);
        assert(dec_rep(n).drop_last() =~= Seq::<u8>::empty());
        assert(digits_val(Seq::<u8>::empty()) == 0);
        assert((n + 48) as u8 == n + 48);
    } else {
        lemma_dec_rep_val(n / 10);
        vstd::arithmetic::div_mod::lemma_fundamental_div_mod(n as int, 10);
        assert(dec_rep(n).drop_last() =~= dec_rep(n / 10));
        assert(0 <= n % 10 < 10);
        assert((n % 10 + 48) as u8 == n % 10 + 48);
    }
}

proof fn lemma_digits_val_nonneg(s: Seq<u8>)
    requires
        all_digits(s),
    ensures
        digits_val(s) >= 0,
    decreases s.len(),
{
    if s.len() > 0 {
        assert(all_digits(s.drop_last()));
        lemma_digits_val_nonneg(s.drop_last());
    }
}

/// The value of a digit string only grows as digits are appended.
proof fn lemma_digits_val_take_le(s: Seq<u8>, k: int)
    requires
        0 <= k <= s.len(),
        all_digits(s),
    ensures
        digits_val(s.take(k)) <= digits_val(s),
    decreases s.len() - k,
{
    if k == s.len() {
        assert(s.take(k) =~= s);
    } else {
        lemma_digits_val_take_le(s, k + 1);
        assert(s.take(k + 1).drop_last() =~= s.take(k));
        assert(all_digits(s.take(k)));
        lemma_digits_val_nonneg(s.take(k));
        assert(digits_val(s.take(k + 1)) == digits_val(s.take(k)) * 10 + (s[k] - 48));
    }
}

// ---------------------------------------------------------------------
// Locating the field separator
// ---------------------------------------------------------------------

/// Index of the first occurrence of `b` in `s`, if any.
pub open spec fn find_byte(s: Seq<u8>, b: u8) -> Option<int>
    decreases s.len(),
{
    if s.len() == 0 {
        None
    } else if s[0] == b {
        Some(0int)
    } else {
        match find_byte(s.skip(1), b) {
            Some(i) => Some(i + 1),
            None => None,
        }
    }
}

/// [`find_byte`] returns the least index holding `b`, or nothing when
/// `b` does not occur.
proof fn lemma_find_byte(s: Seq<u8>, b: u8)
    ensures
        match find_byte(s, b) {
            Some(i) => 0 <= i < s.len() && s[i] == b && (forall|j: int| 0 <= j < i ==> s[j] != b),
            None => forall|j: int| 0 <= j < s.len() ==> s[j] != b,
        },
    decreases s.len(),
{
    if s.len() > 0 && s[0] != b {
        lemma_find_byte(s.skip(1), b);
        match find_byte(s.skip(1), b) {
            Some(i) => {
                assert(s.skip(1)[i] == s[i + 1]);
                assert(forall|j: int| 1 <= j < i + 1 ==> s[j] == s.skip(1)[j - 1]);
            },
            None => {
                assert(forall|j: int| 1 <= j < s.len() ==> s[j] == s.skip(1)[j - 1]);
            },
        }
    }
}

proof fn lemma_find_byte_at(s: Seq<u8>, b: u8, i: int)
    requires
        0 <= i < s.len(),
        s[i] == b,
        forall|j: int| 0 <= j < i ==> s[j] != b,
    ensures
        find_byte(s, b) == Some(i),
{
    lemma_find_byte(s, b);
}

proof fn lemma_find_byte_none(s: Seq<u8>, b: u8)
    requires
        forall|j: int| 0 <= j < s.len() ==> s[j] != b,
    ensures
        find_byte(s, b) is None,
{
    lemma_find_byte(s, b);
}

// ---------------------------------------------------------------------
// Frames
// ---------------------------------------------------------------------

/// One wire unit of the discovery and messaging protocol.
pub enum Frame {
    /// A presence announcement carrying the sender's nickname.
    Hello { nickname: Vec<u8> },
    /// A group text message, to be acknowledged by its id.
    Message { id: u64, payload: Vec<u8> },
    /// The acknowledgement of the message with the same id.
    Ack { id: u64 },
}

/// The mathematical model of a [`Frame`].
pub enum FrameModel {
    Hello { nickname: Seq<u8> },
    Message { id: u64, payload: Seq<u8> },
    Ack { id: u64 },
}

impl View for Frame {
    type V = FrameModel;

    open spec fn view(&self) -> FrameModel {
        match self {
            Frame::Hello { nickname } => FrameModel::Hello { nickname: nickname@ },
            Frame::Message { id, payload } => FrameModel::Message {
                id: *id,
                payload: payload@,
            },
            Frame::Ack { id } => FrameModel::Ack { id: *id },
        }
    }
}

/// The bytes of `HELLO:`.
pub open spec fn hello_tag() -> Seq<u8> {
    seq![72u8, 69u8, 76u8, 76u8, 79u8, 58u8]
}

/// The bytes of `MSG:`.
pub open spec fn msg_tag() -> Seq<u8> {
    seq![77u8, 83u8, 71u8, 58u8]
}

/// The bytes of `ACK:`.
pub open spec fn ack_tag() -> Seq<u8> {
    seq![65u8, 67u8, 75u8, 58u8]
}

/// The encoding of a frame, as the wire carries it.
pub open spec fn spec_encode(m: FrameModel) -> Seq<u8> {
    match m {
        FrameModel::Hello { nickname } => hello_tag() + nickname,
        FrameModel::Message { id, payload } => msg_tag() + dec_rep(id as nat) + seq![58u8]
            + payload,
        FrameModel::Ack { id } => ack_tag() + dec_rep(id as nat),
    }
}

/// The value of a digit field: defined only for a non-empty all-digit
/// string whose value fits the id space.
pub open spec fn parse_decimal(s: Seq<u8>) -> Option<u64> {
    if s.len() > 0 && all_digits(s) && digits_val(s) <= u64::MAX {
        Some(digits_val(s) as u64)
    } else {
        None
    }
}

/// The frame a byte string denotes, or nothing when it is malformed.
pub open spec fn spec_parse(s: Seq<u8>) -> Option<FrameModel> {
    if starts_with(s, hello_tag()) {
        Some(FrameModel::Hello { nickname: s.skip(6) })
    } else if starts_with(s, msg_tag()) {
        let t = s.skip(4);
        match find_byte(t, 58) {
            Some(i) => match parse_decimal(t.take(i)) {
                Some(id) => Some(FrameModel::Message { id, payload: t.skip(i + 1) }),
                None => None,
            },
            None => None,
        }
    } else if starts_with(s, ack_tag()) {
        match parse_decimal(s.skip(4)) {
            Some(id) => Some(FrameModel::Ack { id }),
            None => None,
        }
    } else {
        None
    }
}

// ---------------------------------------------------------------------
// Round trip
// ---------------------------------------------------------------------

/// Encoding a frame and parsing the result recovers the frame exactly,
/// whatever the id, the nickname, or the payload — in particular a
/// payload that itself contains colons.
pub proof fn lemma_round_trip(m: FrameModel)
    ensures
        spec_parse(spec_encode(m)) == Some(m),
{
    let s = spec_encode(m);
    match m {
        FrameModel::Hello { nickname } => {
            assert(s.take(6) =~= hello_tag());
            assert(s.skip(6) =~= nickname);
        },
        FrameModel::Message { id, payload } => {
            let d = dec_rep(id as nat);
            lemma_dec_rep_digits(id as nat);
            lemma_dec_rep_val(id as nat);
            if starts_with(s, hello_tag()) {
                assert(s.take(6)[0] == s[0]);
                assert(hello_tag()[0] == 72);
                assert(s[0] == 77);
            }
            assert(s.take(4) =~= msg_tag());
            let t = s.skip(4);
            assert(t =~= d + seq![58u8] + payload);
            assert(t[d.len() as int] == 58);
            assert(forall|j: int| 0 <= j < d.len() ==> t[j] == d[j] && t[j] != 58);
            lemma_find_byte_at(t, 58, d.len() as int);
            assert(t.take(d.len() as int) =~= d);
            assert(t.skip(d.len() as int + 1) =~= payload);
        },
        FrameModel::Ack { id } => {
            let d = dec_rep(id as nat);
            lemma_dec_rep_digits(id as nat);
            lemma_dec_rep_val(id as nat);
            if starts_with(s, hello_tag()) {
                assert(s.take(6)[0] == s[0]);
                assert(hello_tag()[0] == 72);
                assert(s[0] == 65);
            }
            if starts_with(s, msg_tag()) {
                assert(s.take(4)[0] == s[0]);
                assert(msg_tag()[0] == 77);
                assert(s[0] == 65);
            }
            assert(s.take(4) =~= ack_tag());
            assert(s.skip(4) =~= d);
        },
    }
}

// ---------------------------------------------------------------------
// Executable encoder
// ---------------------------------------------------------------------

fn hello_tag_vec() -> (r: Vec<u8>)
    ensures
        r@ == hello_tag(),
{
    let mut v: Vec<u8> = Vec::new();
    v.push(72);
    v.push(69);
    v.push(76);
    v.push(76);
    v.push(79);
    v.push(58);
    proof {
        assert(v@ =~= hello_tag());
    }
    v
}

fn msg_tag_vec() -> (r: Vec<u8>)
    ensures
        r@ == msg_tag(),
{
    let mut v: Vec<u8> = Vec::new();
    v.push(77);
    v.push(83);
    v.push(71);
    v.push(58);
    proof {
        assert(v@ =~= msg_tag());
    }
    v
}

fn ack_tag_vec() -> (r: Vec<u8>)
    ensures
        r@ == ack_tag(),
{
    let mut v: Vec<u8> = Vec::new();
    v.push(65);
    v.push(67);
    v.push(75);
    v.push(58);
    proof {
        assert(v@ =~= ack_tag());
    }
    v
}

fn append_bytes(out: &mut Vec<u8>, src: &Vec<u8>)
    ensures
        final(out)@ == old(out)@ + src@,
{
    let mut i: usize = 0;
    while i < src.len()
        invariant
            i <= src@.len(),
            out@ == old(out)@ + src@.take(i as int),
        decreases src@.len() - i,
    {
        out.push(src[i]);
        i = i + 1;
        proof {
            assert(out@ =~= old(out)@ + src@.take(i as int));
        }
    }
    proof {
        assert(old(out)@ + src@.take(src@.len() as int) =~= old(out)@ + src@);
    }
}

fn push_decimal(out: &mut Vec<u8>, n: u64)
    ensures
        final(out)@ == old(out)@ + dec_rep(n as nat),
    decreases n,
{
    if n >= 10 {
        push_decimal(out, n / 10);
    }
    out.push((n % 10) as u8 + 48);
    proof {
        assert(out@ =~= old(out)@ + dec_rep(n as nat));
    }
}

/// Encodes `f` into its wire bytes.
pub fn encode_frame(f: &Frame) -> (r: Vec<u8>)
    ensures
        r@ == spec_encode(f@),
{
    match f {
        Frame::Hello { nickname } => {
            let mut out = hello_tag_vec();
            append_bytes(&mut out, nickname);
            out
        },
        Frame::Message { id, payload } => {
            let mut out = msg_tag_vec();
            push_decimal(&mut out, *id);
            out.push(58);
            append_bytes(&mut out, payload);
            proof {
                assert(out@ =~= msg_tag() + dec_rep(*id as nat) + seq![58u8] + payload@);
            }
            out
        },
        Frame::Ack { id } => {
            let mut out = ack_tag_vec();
            push_decimal(&mut out, *id);
            out
        },
    }
}

// ---------------------------------------------------------------------
// Executable parser
// ---------------------------------------------------------------------

fn find_colon(data: &Vec<u8>, start: usize) -> (r: Option<usize>)
    requires
        start <= data@.len(),
    ensures
        match r {
            Some(i) => start <= i < data@.len() && find_byte(data@.skip(start as int), 58)
                == Some(i - start),
            None => find_byte(data@.skip(start as int), 58) is None,
        },
{
    let mut i: usize = start;
    while i < data.len()
        invariant
            start <= i <= data@.len(),
            forall|j: int| start <= j < i ==> data@[j] != 58,
        decreases data@.len() - i,
    {
        if data[i] == 58 {
            proof {
                let t = data@.skip(start as int);
                assert(forall|j: int| 0 <= j < i - start ==> t[j] == data@[j + start]);
                lemma_find_byte_at(t, 58, i - start);
            }
            return Some(i);
        }
        i = i + 1;
    }
    proof {
        let t = data@.skip(start as int);
        assert(forall|j: int| 0 <= j < t.len() ==> t[j] == data@[j + start]);
        lemma_find_byte_none(t, 58);
    }
    None
}

fn parse_decimal_range(data: &Vec<u8>, start: usize, end: usize) -> (r: Option<u64>)
    requires
        start <= end <= data@.len(),
    ensures
        r == parse_decimal(data@.subrange(start as int, end as int)),
{
    let ghost s = data@.subrange(start as int, end as int);
    if start == end {
        return None;
    }
    let mut acc: u64 = 0;
    let mut i: usize = start;
    while i < end
        invariant
            start <= i <= end <= data@.len(),
            start < end,
            s == data@.subrange(start as int, end as int),
            forall|j: int| 0 <= j < i - start ==> is_digit(s[j]),
            acc as int == digits_val(s.take(i - start)),
        decreases end - i,
    {
        let b = data[i];
        proof {
            assert(s[i - start] == data@[i as int]);
        }
        if b < 48 || b > 57 {
            proof {
                assert(!is_digit(s[i - start]));
            }
            return None;
        }
        let d = (b - 48) as u64;
        proof {
            assert(s.take(i - start + 1).drop_last() =~= s.take(i - start));
            assert(digits_val(s.take(i - start + 1)) == acc * 10 + d);
        }
        let acc10 = match acc.checked_mul(10) {
            Some(x) => x,
            None => {
                proof {
                    if s.len() > 0 && all_digits(s) {
                        lemma_digits_val_take_le(s, i - start + 1);
                    }
                }
                return None;
            },
        };
        let acc2 = match acc10.checked_add(d) {
            Some(x) => x,
            None => {
                proof {
                    if s.len() > 0 && all_digits(s) {
                        lemma_digits_val_take_le(s, i - start + 1);
                    }
                }
                return None;
            },
        };
        acc = acc2;
        i = i + 1;
    }
    proof {
        assert(s.take(end - start) =~= s);
    }
    Some(acc)
}

/// Parses one datagram into a frame; malformed input yields nothing,
/// exactly as [`spec_parse`] says.
pub fn parse_frame(data: &Vec<u8>) -> (r: Option<Frame>)
    ensures
        match r {
            Some(f) => spec_parse(data@) == Some(f@),
            None => spec_parse(data@) is None,
        },
{
    let hello = hello_tag_vec();
    if has_prefix(data, &hello) {
        let nickname = copy_range(data, 6, data.len());
        proof {
            assert(data@.subrange(6, data@.len() as int) =~= data@.skip(6));
        }
        return Some(Frame::Hello { nickname });
    }
    let msg = msg_tag_vec();
    if has_prefix(data, &msg) {
        let ghost t = data@.skip(4);
        match find_colon(data, 4) {
            Some(ci) => {
                proof {
                    assert(t.take(ci - 4) =~= data@.subrange(4, ci as int));
                }
                match parse_decimal_range(data, 4, ci) {
                    Some(id) => {
                        let dlen = data.len();
                        let payload = copy_range(data, ci + 1, dlen);
                        proof {
                            assert(t.skip(ci - 4 + 1) =~= data@.subrange(
                                ci + 1,
                                data@.len() as int,
                            ));
                        }
                        Some(Frame::Message { id, payload })
                    },
                    None => None,
                }
            },
            None => None,
        }
    } else {
        let ack = ack_tag_vec();
        if has_prefix(data, &ack) {
            proof {
                assert(data@.subrange(4, data@.len() as int) =~= data@.skip(4));
            }
            match parse_decimal_range(data, 4, data.len()) {
                Some(id) => Some(Frame::Ack { id }),
                None => None,
            }
        } else {
            None
        }
    }
}

} // verus!
