//! The Variable Leader block (ID `0x0080`, 65 or 77 bytes depending on
//! firmware; at least 56 are read).
//!
//! Bytes 4–10 hold the ensemble time as YY MM DD HH MM SS CC (year − 2000 and
//! hundredths of a second), bytes 16–17 the transducer depth in decimeters
//! (u16 LE).

use crate::bytes::{read_u16, u16_at};
use crate::error::{BlockKind, ParseError};
use vstd::prelude::*;

verus! {

/// The fields of the Variable Leader that a ping needs.
pub struct VariableLeader {
    /// ISO-8601 timestamp string: "YYYY-MM-DDTHH:MM:SS.ccZ"
    pub timestamp: String,
    /// Transducer depth in decimeters (divide by 10 for meters).
    pub transducer_depth_dm: u16,
}

/// The mathematical value of a [`VariableLeader`].
pub struct VariableLeaderView {
    pub timestamp: Seq<char>,
    pub transducer_depth_dm: u16,
}

impl View for VariableLeader {
    type V = VariableLeaderView;

    open spec fn view(&self) -> VariableLeaderView {
        VariableLeaderView { timestamp: self.timestamp@, transducer_depth_dm: self.transducer_depth_dm }
    }
}

/// The ASCII character of the decimal digit `d`.
pub open spec fn digit_char(d: nat) -> char {
    (48 + d) as char
}

/// The decimal digits of `n`, most significant first, without leading zeros.
pub open spec fn decimal(n: nat) -> Seq<char>
    decreases n,
{
    if n < 10 {
        seq![digit_char(n)]
    } else {
        decimal(n / 10).push(digit_char(n % 10))
    }
}

/// The decimal digits of `n`, left-padded with `'0'` to at least `width` characters.
pub open spec fn zero_padded(n: nat, width: nat) -> Seq<char> {
    let d = decimal(n);
    if d.len() >= width {
        d
    } else {
        Seq::new((width - d.len()) as nat, |_i: int| '0') + d
    }
}

/// The timestamp text for the time fields at bytes 4–10 of `block`:
/// `YYYY-MM-DDTHH:MM:SS.ccZ`, the year being 2000 + byte 4.
pub open spec fn spec_timestamp(block: Seq<u8>) -> Seq<char> {
    zero_padded((2000 + block[4]) as nat, 4) + seq!['-'] + zero_padded(block[5] as nat, 2) + seq!['-']
        + zero_padded(block[6] as nat, 2) + seq!['T'] + zero_padded(block[7] as nat, 2) + seq![':']
        + zero_padded(block[8] as nat, 2) + seq![':'] + zero_padded(block[9] as nat, 2) + seq!['.']
        + zero_padded(block[10] as nat, 2) + seq!['Z']
}

/// The number a string of decimal digits stands for.
pub open spec fn digits_value(s: Seq<char>) -> int
    decreases s.len(),
{
    if s.len() == 0 {
        0
    } else {
        digits_value(s.drop_last()) * 10 + (s.last() as int - 48)
    }
}

/// `decimal(n)` is the base-10 numeral of `n`: all its characters are digits,
/// it has as many as `n` needs (1 to 4 below 10000), and it stands for `n`.
pub proof fn lemma_decimal(n: nat)
    ensures
        digits_value(decimal(n)) == n,
        forall|i: int| 0 <= i < decimal(n).len() ==> '0' <= #[trigger] decimal(n)[i] <= '9',
        decimal(n).len() >= 1,
        n < 10 ==> decimal(n).len() == 1,
        10 <= n < 100 ==> decimal(n).len() == 2,
        100 <= n < 1000 ==> decimal(n).len() == 3,
        1000 <= n < 10000 ==> decimal(n).len() == 4,
    decreases n,
{
    assert(digit_char(n % 10) as int == 48 + n % 10);
    if n < 10 {
        assert(decimal(n).drop_last() =~= Seq::<char>::empty());
        assert(decimal(n).last() == digit_char(n));
        assert(digits_value(decimal(n)) == digits_value(decimal(n).drop_last()) * 10 + (decimal(n).last() as int - 48));
    } else {
        lemma_decimal(n / 10);
        let d = decimal(n);
        assert(d.drop_last() =~= decimal(n / 10));
        assert(d.last() == digit_char(n % 10));
        assert(n == (n / 10) * 10 + n % 10);
        assert(digits_value(d) == digits_value(d.drop_last()) * 10 + (d.last() as int - 48));
        assert forall|i: int| 0 <= i < d.len() implies '0' <= #[trigger] d[i] <= '9' by {
            if i < d.len() - 1 {
                assert(d[i] == decimal(n / 10)[i]);
            }
        }
    }
}

/// Zero padding keeps the value and gives at least `width` digits; a value
/// with at most `width` digits comes out exactly `width` long.
pub proof fn lemma_zero_padded(n: nat, width: nat)
    ensures
        digits_value(zero_padded(n, width)) == n,
        forall|i: int| 0 <= i < zero_padded(n, width).len() ==> '0' <= #[trigger] zero_padded(n, width)[i] <= '9',
        zero_padded(n, width).len() >= width,
        decimal(n).len() <= width ==> zero_padded(n, width).len() == width,
{
    lemma_decimal(n);
    let d = decimal(n);
    if d.len() < width {
        let z = Seq::new((width - d.len()) as nat, |_i: int| '0');
        lemma_digits_value_leading_zeros(z, d);
        assert forall|i: int| 0 <= i < zero_padded(n, width).len() implies '0' <= #[trigger] zero_padded(n, width)[i] <= '9' by {
            if i >= z.len() {
                assert(zero_padded(n, width)[i] == d[i - z.len()]);
            }
        }
    }
}

/// Leading zeros do not change the value of a numeral.
proof fn lemma_digits_value_leading_zeros(z: Seq<char>, d: Seq<char>)
    requires
        forall|i: int| 0 <= i < z.len() ==> #[trigger] z[i] == '0',
    ensures
        digits_value(z + d) == digits_value(d),
    decreases d.len(),
{
    if d.len() == 0 {
        assert(z + d =~= z);
        lemma_digits_value_zeros(z);
    } else {
        lemma_digits_value_leading_zeros(z, d.drop_last());
        assert((z + d).drop_last() =~= z + d.drop_last());
    }
}

/// A string of zeros stands for zero.
proof fn lemma_digits_value_zeros(z: Seq<char>)
    requires
        forall|i: int| 0 <= i < z.len() ==> #[trigger] z[i] == '0',
    ensures
        digits_value(z) == 0,
    decreases z.len(),
{
    if z.len() > 0 {
        lemma_digits_value_zeros(z.drop_last());
    }
}

/// For time fields below 100 the timestamp has the shape
/// `YYYY-MM-DDTHH:MM:SS.ccZ`: 23 characters with the separators in place and
/// each field the zero-padded decimal numeral of its byte.
pub proof fn lemma_timestamp_shape(block: Seq<u8>)
    requires
        block.len() >= 11,
        forall|i: int| 5 <= i <= 10 ==> #[trigger] block[i] < 100,
    ensures
        spec_timestamp(block).len() == 23,
        spec_timestamp(block)[4] == '-' && spec_timestamp(block)[7] == '-',
        spec_timestamp(block)[10] == 'T',
        spec_timestamp(block)[13] == ':' && spec_timestamp(block)[16] == ':',
        spec_timestamp(block)[19] == '.',
        spec_timestamp(block)[22] == 'Z',
        digits_value(spec_timestamp(block).subrange(0, 4)) == 2000 + block[4],
        digits_value(spec_timestamp(block).subrange(5, 7)) == block[5],
        digits_value(spec_timestamp(block).subrange(8, 10)) == block[6],
        digits_value(spec_timestamp(block).subrange(11, 13)) == block[7],
        digits_value(spec_timestamp(block).subrange(14, 16)) == block[8],
        digits_value(spec_timestamp(block).subrange(17, 19)) == block[9],
        digits_value(spec_timestamp(block).subrange(20, 22)) == block[10],
{
    lemma_decimal((2000 + block[4]) as nat);
    lemma_zero_padded((2000 + block[4]) as nat, 4);
    assert(block[5] < 100 && block[6] < 100 && block[7] < 100);
    assert(block[8] < 100 && block[9] < 100 && block[10] < 100);
    lemma_decimal(block[5] as nat);
    lemma_decimal(block[6] as nat);
    lemma_decimal(block[7] as nat);
    lemma_decimal(block[8] as nat);
    lemma_decimal(block[9] as nat);
    lemma_decimal(block[10] as nat);
    lemma_zero_padded(block[5] as nat, 2);
    lemma_zero_padded(block[6] as nat, 2);
    lemma_zero_padded(block[7] as nat, 2);
    lemma_zero_padded(block[8] as nat, 2);
    lemma_zero_padded(block[9] as nat, 2);
    lemma_zero_padded(block[10] as nat, 2);
    let t = spec_timestamp(block);
    let y = zero_padded((2000 + block[4]) as nat, 4);
    assert(t.subrange(0, 4) =~= y);
    assert(t.subrange(5, 7) =~= zero_padded(block[5] as nat, 2));
    assert(t.subrange(8, 10) =~= zero_padded(block[6] as nat, 2));
    assert(t.subrange(11, 13) =~= zero_padded(block[7] as nat, 2));
    assert(t.subrange(14, 16) =~= zero_padded(block[8] as nat, 2));
    assert(t.subrange(17, 19) =~= zero_padded(block[9] as nat, 2));
    assert(t.subrange(20, 22) =~= zero_padded(block[10] as nat, 2));
}

/// What [`VariableLeader::parse`] gives for `block`.
pub open spec fn spec_variable_leader(block: Seq<u8>) -> Result<VariableLeaderView, ParseError> {
    if block.len() < 56 {
        Err(ParseError::BlockTooShort { kind: BlockKind::VariableLeader, len: block.len() as usize, expected: 56 })
    } else if u16_at(block, 0) != 0x0080 {
        Err(ParseError::WrongBlockId { kind: BlockKind::VariableLeader, found: u16_at(block, 0) })
    } else {
        Ok(VariableLeaderView { timestamp: spec_timestamp(block), transducer_depth_dm: u16_at(block, 16) })
    }
}

/// A Variable Leader decodes exactly when the block has at least 56 bytes and
/// starts with the ID bytes `80 00`; its transducer depth is the full
/// little-endian u16 at bytes 16–17, and its timestamp has the shape and
/// field values that [`lemma_timestamp_shape`] states.
pub proof fn lemma_variable_leader_fields(block: Seq<u8>)
    ensures
        spec_variable_leader(block) is Ok <==> (block.len() >= 56 && block[0] == 0x80 && block[1] == 0),
        spec_variable_leader(block) matches Ok(v) ==> {
            &&& v.transducer_depth_dm as int == block[16] + 256 * block[17]
            &&& v.timestamp == spec_timestamp(block)
        },
{
}

/// Appends the decimal digit `d` to `s`.
fn push_digit(s: &mut String, d: u16)
    requires
        d < 10,
    ensures
        final(s)@ == old(s)@.push(digit_char(d as nat)),
{
    let lit = match d {
        0 => "0",
        1 => "1",
        2 => "2",
        3 => "3",
        4 => "4",
        5 => "5",
        6 => "6",
        7 => "7",
        8 => "8",
        _ => "9",
    };
    proof {
        reveal_strlit("0");
        reveal_strlit("1");
        reveal_strlit("2");
        reveal_strlit("3");
        reveal_strlit("4");
        reveal_strlit("5");
        reveal_strlit("6");
        reveal_strlit("7");
        reveal_strlit("8");
        reveal_strlit("9");
    }
    assert(lit@ == seq![digit_char(d as nat)]);
    s.append(lit);
}

/// Appends the decimal digits of `n` to `s`.
fn push_decimal(s: &mut String, n: u16)
    ensures
        final(s)@ == old(s)@ + decimal(n as nat),
    decreases n,
{
    if n >= 10 {
        push_decimal(s, n / 10);
        push_digit(s, n % 10);
        assert(final(s)@ =~= old(s)@ + decimal(n as nat));
    } else {
        push_digit(s, n);
    }
}

/// The number of decimal digits of `n`.
fn decimal_len(n: u16) -> (r: usize)
    ensures
        r == decimal(n as nat).len(),
        1 <= r <= n as int + 1,
    decreases n,
{
    if n >= 10 {
        decimal_len(n / 10) + 1
    } else {
        1
    }
}

/// Appends `n` in decimal, left-padded with zeros to `width` characters.
fn push_zero_padded(s: &mut String, n: u16, width: usize)
    ensures
        final(s)@ == old(s)@ + zero_padded(n as nat, width as nat),
{
    let len = decimal_len(n);
    let mut k: usize = len;
    let ghost start = s@;
    while k < width
        invariant
            len <= k <= width || (len >= width && k == len),
            len == decimal(n as nat).len(),
            s@ == start + Seq::new((k - len) as nat, |_i: int| '0'),
        decreases width - k,
    {
        s.append("0");
        proof {
            reveal_strlit("0");
        }
        assert(s@ =~= start + Seq::new((k + 1 - len) as nat, |_i: int| '0'));
        k = k + 1;
    }
    push_decimal(s, n);
    proof {
        if len >= width {
            assert(s@ =~= start + decimal(n as nat));
        } else {
            assert(s@ =~= start + (Seq::new((width - len) as nat, |_i: int| '0') + decimal(n as nat)));
        }
    }
}

/// Appends the single character of the literal `lit` to `s`.
fn push_sep(s: &mut String, lit: &str)
    requires
        lit@.len() == 1,
    ensures
        final(s)@ == old(s)@.push(lit@[0]),
{
    s.append(lit);
    assert(final(s)@ =~= old(s)@.push(lit@[0]));
}

/// Builds the timestamp text for the time fields at bytes 4–10 of `block`.
fn format_timestamp(block: &[u8]) -> (r: String)
    requires
        block@.len() >= 11,
    ensures
        r@ == spec_timestamp(block@),
{
    proof {
        reveal_strlit("-");
        reveal_strlit("T");
        reveal_strlit(":");
        reveal_strlit(".");
        reveal_strlit("Z");
    }
    let mut s = String::new();
    push_zero_padded(&mut s, 2000u16 + block[4] as u16, 4);
    push_sep(&mut s, "-");
    push_zero_padded(&mut s, block[5] as u16, 2);
    push_sep(&mut s, "-");
    push_zero_padded(&mut s, block[6] as u16, 2);
    push_sep(&mut s, "T");
    push_zero_padded(&mut s, block[7] as u16, 2);
    push_sep(&mut s, ":");
    push_zero_padded(&mut s, block[8] as u16, 2);
    push_sep(&mut s, ":");
    push_zero_padded(&mut s, block[9] as u16, 2);
    push_sep(&mut s, ".");
    push_zero_padded(&mut s, block[10] as u16, 2);
    push_sep(&mut s, "Z");
    assert(s@ =~= spec_timestamp(block@));
    s
}

impl VariableLeader {
    /// Decodes a Variable Leader from `block`, which starts at the block's ID.
    pub fn parse(block: &[u8]) -> (r: Result<VariableLeader, ParseError>)
        ensures
            r is Ok <==> spec_variable_leader(block@) is Ok,
            r matches Ok(v) ==> spec_variable_leader(block@) == Ok::<VariableLeaderView, ParseError>(v@),
            r matches Err(e) ==> spec_variable_leader(block@) == Err::<VariableLeaderView, ParseError>(e),
            r matches Ok(v) ==> v.transducer_depth_dm as int == block@[16] + 256 * block@[17],
    {
        proof {
            lemma_variable_leader_fields(block@);
        }
        if block.len() < 56 {
            return Err(ParseError::BlockTooShort { kind: BlockKind::VariableLeader, len: block.len(), expected: 56 });
        }
        let id = read_u16(block, 0);
        if id != 0x0080 {
            return Err(ParseError::WrongBlockId { kind: BlockKind::VariableLeader, found: id });
        }
        let timestamp = format_timestamp(block);
        let transducer_depth_dm = read_u16(block, 16);
        Ok(VariableLeader { timestamp, transducer_depth_dm })
    }
}

} // verus!
