//! Object handles.

use vstd::prelude::*;

use crate::text::string_push;

verus! {

/// An object handle of a drawing: a number that identifies one item.
#[derive(Clone, Copy, Debug, PartialEq, Eq, Structural)]
pub struct Handle(pub u64);

/// The handles `1` through `RESERVED_HANDLE_COUNT` are reserved for the tables
/// themselves; item handles are never drawn from that range.
pub const RESERVED_HANDLE_COUNT: u64 = 10;

/// A handle value that `next_handle_value` never hands out.
pub open spec fn is_reserved_value(v: u64) -> bool {
    1 <= v <= RESERVED_HANDLE_COUNT
}

/// The handle value that follows `v`: one more, or the first value after the
/// reserved range when one more would fall into it.
pub open spec fn next_value(v: u64) -> u64 {
    if v + 1 <= RESERVED_HANDLE_COUNT {
        (RESERVED_HANDLE_COUNT + 1) as u64
    } else {
        (v + 1) as u64
    }
}

/// The upper-case hexadecimal digit of `d`.
pub open spec fn hex_digit(d: nat) -> char {
    if d < 10 {
        (('0' as nat) + d) as char
    } else {
        (('A' as nat) + (d - 10)) as char
    }
}

/// The upper-case hexadecimal numeral of `n`, without leading zeros
/// (`"0"` for zero).
pub open spec fn hex_upper(n: nat) -> Seq<char>
    decreases n,
{
    if n < 16 {
        seq![hex_digit(n)]
    } else {
        hex_upper(n / 16).push(hex_digit(n % 16))
    }
}

/// The value of one hexadecimal digit (either case), if `c` is one.
pub open spec fn hex_digit_value(c: char) -> Option<nat> {
    if '0' <= c && c <= '9' {
        Some((c as nat - '0' as nat) as nat)
    } else if 'A' <= c && c <= 'F' {
        Some((c as nat - 'A' as nat + 10) as nat)
    } else if 'a' <= c && c <= 'f' {
        Some((c as nat - 'a' as nat + 10) as nat)
    } else {
        None
    }
}

/// The value of a hexadecimal numeral, if every character is a digit.
pub open spec fn hex_value(s: Seq<char>) -> Option<nat>
    decreases s.len(),
{
    if s.len() == 0 {
        Some(0)
    } else {
        match (hex_value(s.drop_last()), hex_digit_value(s.last())) {
            (Some(h), Some(d)) => Some(h * 16 + d),
            _ => None,
        }
    }
}

impl Handle {
    /// The handle that stands for "no handle".
    pub fn empty() -> (h: Self)
        ensures
            h.0 == 0,
    {
        Handle(0)
    }

    /// The handle that follows this one, skipping the reserved range.
    pub fn next_handle_value(self) -> (h: Self)
        requires
            self.0 < u64::MAX,
        ensures
            h.0 == next_value(self.0),
            h.0 > self.0,
            !is_reserved_value(h.0),
            h.0 != 0,
    {
        let next_value = self.0 + 1;
        if next_value <= RESERVED_HANDLE_COUNT {
            Handle(RESERVED_HANDLE_COUNT + 1)
        } else {
            Handle(next_value)
        }
    }

    /// Whether this is the empty handle.
    pub fn is_empty(self) -> (b: bool)
        ensures
            b == (self.0 == 0),
    {
        self.0 == 0
    }

    /// The handle written as an upper-case hexadecimal numeral.
    pub fn as_string(self) -> (s: String)
        ensures
            s@ == hex_upper(self.0 as nat),
    {
        let mut s = String::new();
        push_hex(&mut s, self.0);
        proof {
            assert(s@ =~= hex_upper(self.0 as nat));
        }
        s
    }
}

/// Appends the upper-case hexadecimal numeral of `n`.
fn push_hex(s: &mut String, n: u64)
    ensures
        final(s)@ == old(s)@ + hex_upper(n as nat),
    decreases n,
{
    if n >= 16 {
        push_hex(s, n / 16);
    }
    let ghost mid = s@;
    string_push(s, hex_char(n % 16));
    proof {
        if n >= 16 {
            assert(s@ =~= old(s)@ + hex_upper(n as nat));
        } else {
            assert(s@ =~= old(s)@ + hex_upper(n as nat));
        }
    }
}

proof fn hex_digit_of_small(d: nat)
    requires
        d < 16,
    ensures
        hex_digit_value(hex_digit(d)) == Some(d),
{
}

/// The upper-case hexadecimal digit of `d`.
fn hex_char(d: u64) -> (c: char)
    requires
        d < 16,
    ensures
        c == hex_digit(d as nat),
{
    if d < 10 {
        ((48 + d) as u8) as char
    } else {
        ((55 + d) as u8) as char
    }
}

/// Reading the numeral of a value gives the value back.
proof fn lemma_hex_round_trip(n: nat)
    ensures
        hex_value(hex_upper(n)) == Some(n),
    decreases n,
{
    if n < 16 {
        let s = hex_upper(n);
        assert(s.drop_last() =~= Seq::<char>::empty());
        assert(s.last() == hex_digit(n));
        hex_digit_of_small(n);
        assert(hex_value(s.drop_last()) == Some(0nat));
    } else {
        lemma_hex_round_trip(n / 16);
        hex_digit_of_small(n % 16);
        let s = hex_upper(n);
        assert(s.drop_last() =~= hex_upper(n / 16));
        assert(s.last() == hex_digit(n % 16));
        assert(n == (n / 16) * 16 + n % 16);
    }
}

/// A handle's string denotes the handle's value: reading the hexadecimal
/// numeral that `as_string` writes gives the handle back, so distinct handles
/// are written as distinct strings.
pub proof fn handle_string_round_trip(h: Handle, g: Handle)
    ensures
        hex_value(hex_upper(h.0 as nat)) == Some(h.0 as nat),
        hex_upper(h.0 as nat) == hex_upper(g.0 as nat) ==> h == g,
{
    lemma_hex_round_trip(h.0 as nat);
    lemma_hex_round_trip(g.0 as nat);
}

/// Reads a handle from its hexadecimal numeral: `None` where the text is empty,
/// holds a character that is not a hexadecimal digit, or denotes a value past
/// `u64::MAX`.
pub fn handle_from_hex(s: &Vec<char>) -> (r: Option<Handle>)
    ensures
        r matches Some(h) ==> s@.len() > 0 && hex_value(s@) == Some(h.0 as nat),
        r is None ==> s@.len() == 0 || hex_value(s@) is None || hex_value(s@).unwrap()
            > u64::MAX,
{
    if s.len() == 0 {
        return None;
    }
    let mut acc: u64 = 0;
    let mut i: usize = 0;
    while i < s.len()
        invariant
            i <= s.len(),
            hex_value(s@.subrange(0, i as int)) == Some(acc as nat),
        decreases s.len() - i,
    {
        let c = s[i];
        let d: u64 = if '0' <= c && c <= '9' {
            (c as u32 - '0' as u32) as u64
        } else if 'A' <= c && c <= 'F' {
            (c as u32 - 'A' as u32 + 10) as u64
        } else if 'a' <= c && c <= 'f' {
            (c as u32 - 'a' as u32 + 10) as u64
        } else {
            proof {
                lemma_hex_value_prefix_none(s@, i as int);
            }
            return None;
        };
        proof {
            assert(s@.subrange(0, i + 1).drop_last() =~= s@.subrange(0, i as int));
            assert(s@.subrange(0, i + 1).last() == c);
        }
        if acc > (u64::MAX - d) / 16 {
            proof {
                lemma_hex_value_prefix_big(s@, i + 1, (acc * 16 + d) as nat);
            }
            return None;
        }
        acc = acc * 16 + d;
        i = i + 1;
    }
    proof {
        assert(s@.subrange(0, s.len() as int) =~= s@);
    }
    Some(Handle(acc))
}

proof fn lemma_hex_value_prefix_none(s: Seq<char>, i: int)
    requires
        0 <= i < s.len(),
        hex_digit_value(s[i]) is None,
    ensures
        hex_value(s) is None,
    decreases s.len(),
{
    if i == s.len() - 1 {
    } else {
        lemma_hex_value_prefix_none(s.drop_last(), i);
    }
}

proof fn lemma_hex_value_monotone(s: Seq<char>, k: int)
    requires
        0 <= k <= s.len(),
        hex_value(s) is Some,
    ensures
        hex_value(s.subrange(0, k)) is Some,
        hex_value(s.subrange(0, k)).unwrap() <= hex_value(s).unwrap(),
    decreases s.len(),
{
    if k == s.len() {
        assert(s.subrange(0, k) =~= s);
    } else {
        lemma_hex_value_monotone(s.drop_last(), k);
        assert(s.drop_last().subrange(0, k) =~= s.subrange(0, k));
    }
}

proof fn lemma_hex_value_prefix_big(s: Seq<char>, k: int, v: nat)
    requires
        0 < k <= s.len(),
        hex_value(s.subrange(0, k)) == Some(v),
        v > u64::MAX,
    ensures
        hex_value(s) is None || hex_value(s).unwrap() > u64::MAX,
{
    if hex_value(s) is Some {
        lemma_hex_value_monotone(s, k);
    }
}

/// The handle that follows `v` is the least value above `v` that is neither
/// zero nor reserved.
pub proof fn next_handle_law(v: u64)
    requires
        v < u64::MAX,
    ensures
        next_value(v) > v,
        next_value(v) != 0,
        !is_reserved_value(next_value(v)),
        forall|w: u64| v < w < next_value(v) ==> #[trigger] is_reserved_value(w),
{
}

/// A handle is written in upper-case hexadecimal without leading zeros: every
/// character is one of `0`-`9` and `A`-`F`, and only zero starts with `0`.
pub proof fn hex_text_law(n: nat)
    ensures
        hex_upper(n).len() >= 1,
        forall|i: int|
            0 <= i < hex_upper(n).len() ==> ('0' <= #[trigger] hex_upper(n)[i] <= '9' || 'A' <= hex_upper(n)[i]
                <= 'F'),
        hex_upper(n)[0] == '0' <==> n == 0,
    decreases n,
{
    if n >= 16 {
        hex_text_law(n / 16);
        let t = hex_upper(n / 16);
        assert(hex_upper(n) == t.push(hex_digit(n % 16)));
        assert forall|i: int| 0 <= i < hex_upper(n).len() implies ('0' <= #[trigger] hex_upper(n)[i] <= '9'
            || 'A' <= hex_upper(n)[i] <= 'F') by {
            if i < t.len() {
                assert(hex_upper(n)[i] == t[i]);
            }
        }
        assert(hex_upper(n)[0] == t[0]);
    }
}

} // verus!
