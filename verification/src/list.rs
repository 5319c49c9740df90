//! Lists of names as a configuration value holds them: separated by commas,
//! with blanks around a name and empty names ignored.

use crate::idset::texts;
use vstd::prelude::*;
use vstd::string::*;

verus! {

/// A blank: a space, a tab, or an end of line.
pub open spec fn is_blank(c: char) -> bool {
    c == ' ' || c == '\t' || c == '\n' || c == '\r'
}

/// The position of the first comma of `s`, or the length of `s` where it
/// holds none.
pub open spec fn first_comma(s: Seq<char>) -> nat
    decreases s.len(),
{
    if s.len() == 0 || s[0] == ',' {
        0
    } else {
        1 + first_comma(s.drop_first())
    }
}

/// The pieces of `s` between its commas, in order.
pub open spec fn fields(s: Seq<char>) -> Seq<Seq<char>>
    decreases s.len(),
{
    let k = first_comma(s) as int;
    if k >= s.len() {
        seq![s]
    } else {
        seq![s.take(k)] + fields(s.skip(k + 1))
    }
}

/// `f` without the blanks at its start.
pub open spec fn trim_start(f: Seq<char>) -> Seq<char>
    decreases f.len(),
{
    if f.len() > 0 && is_blank(f[0]) {
        trim_start(f.drop_first())
    } else {
        f
    }
}

/// `f` without the blanks at its end.
pub open spec fn trim_end(f: Seq<char>) -> Seq<char>
    decreases f.len(),
{
    if f.len() > 0 && is_blank(f.last()) {
        trim_end(f.drop_last())
    } else {
        f
    }
}

/// `f` without the blanks at its start and at its end.
pub open spec fn trimmed(f: Seq<char>) -> Seq<char> {
    trim_end(trim_start(f))
}

/// The names among the pieces `fs`: each piece without the blanks around
/// it, unless nothing is left of it.
pub open spec fn names_among(fs: Seq<Seq<char>>) -> Seq<Seq<char>> {
    fs.map_values(|f: Seq<char>| trimmed(f)).filter(|f: Seq<char>| f.len() > 0)
}

/// The names that the list `raw` holds.
pub open spec fn listed(raw: Seq<char>) -> Seq<Seq<char>> {
    names_among(fields(raw))
}

/// Where `s` holds no comma before `k`, and one at `k` unless it ends
/// there, its first comma stands at `k`.
proof fn lemma_first_comma(s: Seq<char>, k: int)
    requires
        0 <= k <= s.len(),
        forall|j: int| 0 <= j < k ==> s[j] != ',',
        k < s.len() ==> s[k] == ',',
    ensures
        first_comma(s) == k,
    decreases k,
{
    if k > 0 {
        lemma_first_comma(s.drop_first(), k - 1);
    }
}

/// The names among two rows of pieces are the names among the first,
/// followed by those among the second.
proof fn lemma_names_among_concat(a: Seq<Seq<char>>, b: Seq<Seq<char>>)
    ensures
        names_among(a + b) == names_among(a) + names_among(b),
{
    let trim = |f: Seq<char>| trimmed(f);
    assert((a + b).map_values(trim) =~= a.map_values(trim) + b.map_values(trim));
}

/// One piece gives one name, or none where only blanks are in it.
proof fn lemma_names_among_one(f: Seq<char>)
    ensures
        names_among(seq![f]) == if trimmed(f).len() > 0 {
            seq![trimmed(f)]
        } else {
            Seq::<Seq<char>>::empty()
        },
{
    reveal_with_fuel(Seq::filter, 2);
}

/// Tells whether `c` is a blank.
fn blank(c: char) -> (r: bool)
    ensures
        r == is_blank(c),
{
    c == ' ' || c == '\t' || c == '\n' || c == '\r'
}

/// Appends the name in the piece of `raw` from `from` to `to`, if it
/// holds one.
fn push_name(names: &mut Vec<String>, raw: &str, from: usize, to: usize)
    requires
        from <= to <= raw@.len(),
    ensures
        texts(final(names)@) == texts(old(names)@) + names_among(
            seq![raw@.subrange(from as int, to as int)],
        ),
{
    let ghost s = raw@;
    let ghost field = s.subrange(from as int, to as int);
    let mut a = from;
    while a < to && blank(raw.get_char(a))
        invariant
            s == raw@,
            from <= a <= to <= s.len(),
            trim_start(field) == trim_start(s.subrange(a as int, to as int)),
        decreases to - a,
    {
        assert(s.subrange(a as int, to as int).drop_first() =~= s.subrange(a + 1, to as int));
        a += 1;
    }
    let ghost left = s.subrange(a as int, to as int);
    let mut b = to;
    while b > a && blank(raw.get_char(b - 1))
        invariant
            s == raw@,
            a <= b <= to <= s.len(),
            trim_end(left) == trim_end(s.subrange(a as int, b as int)),
        decreases b - a,
    {
        assert(s.subrange(a as int, b as int).drop_last() =~= s.subrange(a as int, b - 1));
        b -= 1;
    }
    proof {
        lemma_names_among_one(field);
    }
    if a < b {
        let name = raw.substring_char(a, b).to_owned();
        names.push(name);
    }
}

/// Reads the names that a list holds.
pub fn parse_list(raw: &str) -> (names: Vec<String>)
    ensures
        texts(names@) == listed(raw@),
{
    let ghost s = raw@;
    let n = raw.unicode_len();
    let mut names: Vec<String> = Vec::new();
    let mut start: usize = 0;
    let mut i: usize = 0;
    assert(s.skip(0) =~= s);
    while i < n
        invariant
            s == raw@,
            n == s.len(),
            start <= i <= n,
            forall|j: int| start <= j < i ==> s[j] != ',',
            texts(names@) + listed(s.skip(start as int)) == listed(s),
        decreases n - i,
    {
        if raw.get_char(i) == ',' {
            let ghost rest = s.skip(start as int);
            proof {
                lemma_first_comma(rest, i - start);
                assert(rest.take(i - start) =~= s.subrange(start as int, i as int));
                assert(rest.skip(i - start + 1) =~= s.skip(i + 1));
                lemma_names_among_concat(seq![rest.take(i - start)], fields(s.skip(i + 1)));
            }
            push_name(&mut names, raw, start, i);
            start = i + 1;
        }
        i += 1;
    }
    let ghost rest = s.skip(start as int);
    proof {
        lemma_first_comma(rest, n - start);
    }
    push_name(&mut names, raw, start, n);
    names
}

} // verus!
