//! Operations on texts as sequences of characters.

use vstd::prelude::*;

verus! {

/// Appends one character to a string: `String::push`, which the standard
/// library documents as appending the given `char` to the end of the string.
#[verifier::external_body]
pub(crate) fn string_push(s: &mut String, c: char)
    ensures
        final(s)@ == old(s)@.push(c),
{
    s.push(c);
}

/// The characters of a string slice, in order.
pub(crate) fn chars_of(s: &str) -> (v: Vec<char>)
    ensures
        v@ == s@,
{
    let n = s.unicode_len();
    let mut v: Vec<char> = Vec::new();
    let mut i: usize = 0;
    while i < n
        invariant
            n == s@.len(),
            i <= n,
            v@ == s@.subrange(0, i as int),
        decreases n - i,
    {
        let c = s.get_char(i);
        v.push(c);
        i = i + 1;
        proof {
            assert(v@ =~= s@.subrange(0, i as int));
        }
    }
    proof {
        assert(s@.subrange(0, n as int) =~= s@);
    }
    v
}

/// A string made of the given characters.
pub(crate) fn string_of(v: &[char]) -> (s: String)
    ensures
        s@ == v@,
{
    let mut s = String::new();
    let mut i: usize = 0;
    while i < v.len()
        invariant
            i <= v.len(),
            s@ == v@.subrange(0, i as int),
        decreases v.len() - i,
    {
        string_push(&mut s, v[i]);
        i = i + 1;
        proof {
            assert(s@ =~= v@.subrange(0, i as int));
        }
    }
    proof {
        assert(v@.subrange(0, v@.len() as int) =~= v@);
    }
    s
}

/// Whether two character sequences are equal.
pub(crate) fn chars_eq(a: &[char], b: &[char]) -> (r: bool)
    ensures
        r == (a@ == b@),
{
    if a.len() != b.len() {
        return false;
    }
    let mut i: usize = 0;
    while i < a.len()
        invariant
            a@.len() == b@.len(),
            i <= a.len(),
            forall|k: int| 0 <= k < i ==> a@[k] == b@[k],
        decreases a.len() - i,
    {
        if a[i] != b[i] {
            return false;
        }
        i = i + 1;
    }
    proof {
        assert(a@ =~= b@);
    }
    true
}

/// Whether `p` is a prefix of `s`.
pub open spec fn has_prefix(s: Seq<char>, p: Seq<char>) -> bool {
    p.len() <= s.len() && s.subrange(0, p.len() as int) == p
}

/// Whether the character sequence `s` starts with `p`.
pub(crate) fn starts_with(s: &[char], p: &[char]) -> (r: bool)
    ensures
        r == has_prefix(s@, p@),
{
    if p.len() > s.len() {
        return false;
    }
    let mut i: usize = 0;
    while i < p.len()
        invariant
            p.len() <= s.len(),
            i <= p.len(),
            forall|k: int| 0 <= k < i ==> s@[k] == p@[k],
        decreases p.len() - i,
    {
        if s[i] != p[i] {
            proof {
                assert(s@.subrange(0, p.len() as int)[i as int] != p@[i as int]);
            }
            return false;
        }
        i = i + 1;
    }
    proof {
        assert(s@.subrange(0, p.len() as int) =~= p@);
    }
    true
}

/// The characters that Rust's `char::is_whitespace` accepts: those with the
/// Unicode `White_Space` property.
pub open spec fn is_white(c: char) -> bool {
    ||| ('\u{9}' <= c && c <= '\u{d}')
    ||| c == ' '
    ||| c == '\u{85}'
    ||| c == '\u{a0}'
    ||| c == '\u{1680}'
    ||| ('\u{2000}' <= c && c <= '\u{200a}')
    ||| c == '\u{2028}'
    ||| c == '\u{2029}'
    ||| c == '\u{202f}'
    ||| c == '\u{205f}'
    ||| c == '\u{3000}'
}

fn is_white_exec(c: char) -> (b: bool)
    ensures
        b == is_white(c),
{
    ('\u{9}' <= c && c <= '\u{d}') || c == ' ' || c == '\u{85}' || c == '\u{a0}' || c
        == '\u{1680}' || ('\u{2000}' <= c && c <= '\u{200a}') || c == '\u{2028}' || c
        == '\u{2029}' || c == '\u{202f}' || c == '\u{205f}' || c == '\u{3000}'
}

/// The number of white characters at the start of `s`.
pub open spec fn lead_white(s: Seq<char>) -> nat
    decreases s.len(),
{
    if s.len() > 0 && is_white(s[0]) {
        1 + lead_white(s.drop_first())
    } else {
        0
    }
}

/// The number of white characters at the end of `s`.
pub open spec fn trail_white(s: Seq<char>) -> nat
    decreases s.len(),
{
    if s.len() > 0 && is_white(s.last()) {
        1 + trail_white(s.drop_last())
    } else {
        0
    }
}

/// `s` without white characters at either end, as `str::trim` gives it.
pub open spec fn trim(s: Seq<char>) -> Seq<char> {
    let a = lead_white(s);
    let rest = s.subrange(a as int, s.len() as int);
    rest.subrange(0, rest.len() - trail_white(rest))
}

proof fn lemma_lead_white_bound(s: Seq<char>)
    ensures
        lead_white(s) <= s.len(),
    decreases s.len(),
{
    if s.len() > 0 && is_white(s[0]) {
        lemma_lead_white_bound(s.drop_first());
    }
}

proof fn lemma_trail_white_bound(s: Seq<char>)
    ensures
        trail_white(s) <= s.len(),
    decreases s.len(),
{
    if s.len() > 0 && is_white(s.last()) {
        lemma_trail_white_bound(s.drop_last());
    }
}

/// `s` without white characters at either end.
pub(crate) fn trim_chars(s: &[char]) -> (r: Vec<char>)
    ensures
        r@ == trim(s@),
{
    let mut a: usize = 0;
    proof {
        assert(s@.subrange(0, s@.len() as int) =~= s@);
    }
    while a < s.len() && is_white_exec(s[a])
        invariant
            a <= s.len(),
            lead_white(s@) == a + lead_white(s@.subrange(a as int, s@.len() as int)),
        decreases s.len() - a,
    {
        proof {
            assert(s@.subrange(a as int, s@.len() as int).drop_first() =~= s@.subrange(
                a + 1,
                s@.len() as int,
            ));
        }
        a = a + 1;
    }
    proof {
        assert(lead_white(s@.subrange(a as int, s@.len() as int)) == 0);
    }
    let ghost rest = s@.subrange(a as int, s@.len() as int);
    let mut b: usize = s.len();
    proof {
        assert(rest.subrange(0, b - a) =~= rest);
    }
    while b > a && is_white_exec(s[b - 1])
        invariant
            a <= b <= s.len(),
            rest == s@.subrange(a as int, s@.len() as int),
            trail_white(rest) == (s.len() - b) + trail_white(rest.subrange(0, b - a)),
        decreases b,
    {
        proof {
            assert(rest.subrange(0, b - a).drop_last() =~= rest.subrange(0, b - 1 - a));
            assert(rest.subrange(0, b - a).last() == s@[b - 1]);
        }
        b = b - 1;
    }
    proof {
        assert(trail_white(rest.subrange(0, b - a)) == 0);
    }
    let mut r: Vec<char> = Vec::new();
    let mut i: usize = a;
    while i < b
        invariant
            a <= i <= b <= s.len(),
            r@ == s@.subrange(a as int, i as int),
        decreases b - i,
    {
        r.push(s[i]);
        i = i + 1;
        proof {
            assert(r@ =~= s@.subrange(a as int, i as int));
        }
    }
    proof {
        assert(r@ =~= rest.subrange(0, rest.len() - trail_white(rest)));
    }
    r
}

} // verus!

verus! {

/// `s` without any occurrence of `c`.
pub open spec fn remove_char(s: Seq<char>, c: char) -> Seq<char>
    decreases s.len(),
{
    if s.len() == 0 {
        s
    } else if s.last() == c {
        remove_char(s.drop_last(), c)
    } else {
        remove_char(s.drop_last(), c).push(s.last())
    }
}

/// `s` with every `c` removed, as `str::replace(c, "")` gives it.
pub(crate) fn remove_char_exec(s: &[char], c: char) -> (r: Vec<char>)
    ensures
        r@ == remove_char(s@, c),
{
    let mut r: Vec<char> = Vec::new();
    let mut i: usize = 0;
    while i < s.len()
        invariant
            i <= s@.len(),
            r@ == remove_char(s@.subrange(0, i as int), c),
        decreases s.len() - i,
    {
        proof {
            assert(s@.subrange(0, i + 1).drop_last() =~= s@.subrange(0, i as int));
        }
        if s[i] != c {
            r.push(s[i]);
        }
        i = i + 1;
    }
    proof {
        assert(s@.subrange(0, s@.len() as int) =~= s@);
    }
    r
}

/// The text that replaces a `/` in a text style name.
pub open spec fn forward_slash_word() -> Seq<char> {
    seq!['f', 'o', 'r', 'w', 'a', 'r', 'd', 's', 'l', 'a', 's', 'h']
}

/// `s` with every `/` replaced by `forwardslash`.
pub open spec fn replace_slash(s: Seq<char>) -> Seq<char>
    decreases s.len(),
{
    if s.len() == 0 {
        s
    } else if s.last() == '/' {
        replace_slash(s.drop_last()) + forward_slash_word()
    } else {
        replace_slash(s.drop_last()).push(s.last())
    }
}

/// `s` with every `/` replaced by `forwardslash`, as `str::replace` gives it.
pub(crate) fn replace_slash_exec(s: &[char]) -> (r: Vec<char>)
    ensures
        r@ == replace_slash(s@),
{
    let word: Vec<char> = vec!['f', 'o', 'r', 'w', 'a', 'r', 'd', 's', 'l', 'a', 's', 'h'];
    let mut r: Vec<char> = Vec::new();
    let mut i: usize = 0;
    while i < s.len()
        invariant
            i <= s@.len(),
            word@ == forward_slash_word(),
            r@ == replace_slash(s@.subrange(0, i as int)),
        decreases s.len() - i,
    {
        proof {
            assert(s@.subrange(0, i + 1).drop_last() =~= s@.subrange(0, i as int));
        }
        if s[i] == '/' {
            let ghost before = r@;
            let mut k: usize = 0;
            while k < word.len()
                invariant
                    k <= word@.len(),
                    r@ == before + word@.subrange(0, k as int),
                decreases word.len() - k,
            {
                r.push(word[k]);
                k = k + 1;
                proof {
                    assert(r@ =~= before + word@.subrange(0, k as int));
                }
            }
            proof {
                assert(word@.subrange(0, word@.len() as int) =~= word@);
            }
        } else {
            r.push(s[i]);
        }
        i = i + 1;
    }
    proof {
        assert(s@.subrange(0, s@.len() as int) =~= s@);
    }
    r
}

/// The pieces of `s` between its commas, as `str::split(',')` gives them: one
/// more piece than there are commas, empty pieces included.
pub open spec fn split_commas(s: Seq<char>) -> Seq<Seq<char>>
    decreases s.len(),
{
    if s.len() == 0 {
        seq![Seq::empty()]
    } else {
        let prev = split_commas(s.drop_last());
        if s.last() == ',' {
            prev.push(Seq::empty())
        } else {
            prev.update(prev.len() - 1, prev.last().push(s.last()))
        }
    }
}

proof fn lemma_split_commas_nonempty(s: Seq<char>)
    ensures
        split_commas(s).len() >= 1,
    decreases s.len(),
{
    if s.len() > 0 {
        lemma_split_commas_nonempty(s.drop_last());
    }
}

/// Splits `s` at its commas.
pub(crate) fn split_commas_exec(s: &[char]) -> (r: Vec<Vec<char>>)
    ensures
        r@.map_values(|p: Vec<char>| p@) == split_commas(s@),
        r@.len() >= 1,
{
    let mut done: Vec<Vec<char>> = Vec::new();
    let mut cur: Vec<char> = Vec::new();
    let mut i: usize = 0;
    proof {
        assert(s@.subrange(0, 0) =~= Seq::<char>::empty());
        assert(done@.map_values(|p: Vec<char>| p@).push(cur@) =~= split_commas(
            s@.subrange(0, 0),
        ));
    }
    while i < s.len()
        invariant
            i <= s@.len(),
            done@.map_values(|p: Vec<char>| p@).push(cur@) == split_commas(s@.subrange(0, i as int)),
        decreases s.len() - i,
    {
        proof {
            assert(s@.subrange(0, i + 1).drop_last() =~= s@.subrange(0, i as int));
            lemma_split_commas_nonempty(s@.subrange(0, i as int));
        }
        let ghost old_done = done@;
        let ghost old_cur = cur@;
        if s[i] == ',' {
            let piece = cur;
            done.push(piece);
            cur = Vec::new();
            proof {
                assert(done@.map_values(|p: Vec<char>| p@) =~= old_done.map_values(
                    |p: Vec<char>| p@,
                ).push(old_cur));
                assert(done@.map_values(|p: Vec<char>| p@).push(cur@) =~= split_commas(
                    s@.subrange(0, i + 1),
                ));
            }
        } else {
            cur.push(s[i]);
            proof {
                assert(done@.map_values(|p: Vec<char>| p@).push(cur@) =~= split_commas(
                    s@.subrange(0, i + 1),
                ));
            }
        }
        i = i + 1;
    }
    let ghost old_done = done@;
    done.push(cur);
    proof {
        assert(s@.subrange(0, s@.len() as int) =~= s@);
        assert(done@.map_values(|p: Vec<char>| p@) =~= old_done.map_values(|p: Vec<char>| p@).push(
            cur@,
        ));
    }
    done
}

} // verus!

verus! {

/// `s` from position `k` on.
pub(crate) fn tail_from(s: &[char], k: usize) -> (r: Vec<char>)
    requires
        k <= s@.len(),
    ensures
        r@ == s@.skip(k as int),
{
    let mut r: Vec<char> = Vec::new();
    let mut i: usize = k;
    while i < s.len()
        invariant
            k <= i <= s@.len(),
            r@ == s@.subrange(k as int, i as int),
        decreases s.len() - i,
    {
        r.push(s[i]);
        i = i + 1;
        proof {
            assert(r@ =~= s@.subrange(k as int, i as int));
        }
    }
    proof {
        assert(r@ =~= s@.skip(k as int));
    }
    r
}

/// Trimming never makes a text longer.
pub(crate) proof fn lemma_trim_len(s: Seq<char>)
    ensures
        trim(s).len() <= s.len(),
{
    lemma_lead_white_bound(s);
    let rest = s.subrange(lead_white(s) as int, s.len() as int);
    lemma_trail_white_bound(rest);
}

/// A text has at most one more comma-separated piece than characters.
pub(crate) proof fn lemma_split_commas_len(s: Seq<char>)
    ensures
        split_commas(s).len() <= s.len() + 1,
    decreases s.len(),
{
    if s.len() > 0 {
        lemma_split_commas_len(s.drop_last());
        lemma_split_commas_nonempty(s.drop_last());
    }
}

/// Removing a character keeps every other character, in order: it is the
/// filter that drops `c`.
pub proof fn remove_char_law(s: Seq<char>, c: char)
    ensures
        remove_char(s, c) == s.filter(|x: char| x != c),
    decreases s.len(),
{
    if s.len() > 0 {
        remove_char_law(s.drop_last(), c);
        assert(s.drop_last().push(s.last()) =~= s);
        s.drop_last().lemma_filter_push(s.last(), |x: char| x != c);
    } else {
        reveal(Seq::filter);
    }
}

/// Replacing slashes writes every character in order, each `/` as the letters
/// `forwardslash` and every other character as itself.
pub proof fn replace_slash_law(s: Seq<char>)
    ensures
        replace_slash(s) == s.map_values(
            |x: char|
                if x == '/' {
                    seq!['f', 'o', 'r', 'w', 'a', 'r', 'd', 's', 'l', 'a', 's', 'h']
                } else {
                    seq![x]
                },
        ).flatten(),
    decreases s.len(),
{
    let f = |x: char|
        if x == '/' {
            seq!['f', 'o', 'r', 'w', 'a', 'r', 'd', 's', 'l', 'a', 's', 'h']
        } else {
            seq![x]
        };
    if s.len() > 0 {
        replace_slash_law(s.drop_last());
        assert(s.map_values(f) =~= s.drop_last().map_values(f).push(f(s.last())));
        s.drop_last().map_values(f).lemma_flatten_push(f(s.last()));
        if s.last() != '/' {
            assert(replace_slash(s.drop_last()).push(s.last()) =~= replace_slash(s.drop_last()) + seq![s.last()]);
        }
    } else {
        assert(s.map_values(f) =~= Seq::<Seq<char>>::empty());
    }
}

} // verus!
