//! Reading the names to resolve: one per line, surrounding whitespace
//! dropped, every name once.

use vstd::prelude::*;
use crate::message::strings_view;
use crate::output::{ascending, OutputFile};
use crate::text::{chars_of, pieces_view, split, split_on, string_of};

verus! {

/// Whitespace, as Unicode defines it (the characters with the property
/// `White_Space`): tab to carriage return, space, next line, no-break
/// space, Ogham space mark, the spaces from en quad to hair space, line and
/// paragraph separator, narrow no-break space, medium mathematical space,
/// and ideographic space.
pub open spec fn is_space(c: char) -> bool {
    ||| '\u{9}' <= c && c <= '\u{d}'
    ||| c == ' '
    ||| c == '\u{85}'
    ||| c == '\u{a0}'
    ||| c == '\u{1680}'
    ||| '\u{2000}' <= c && c <= '\u{200a}'
    ||| c == '\u{2028}'
    ||| c == '\u{2029}'
    ||| c == '\u{202f}'
    ||| c == '\u{205f}'
    ||| c == '\u{3000}'
}

/// `t` is `s` without the whitespace before its first and after its last
/// other character.
pub open spec fn is_trim_of(t: Seq<char>, s: Seq<char>) -> bool {
    exists|i: int, j: int| trims_at(t, s, i, j)
}

/// `t` is the part of `s` from `i` to `j`, all before and after it is
/// whitespace, and `t` neither starts nor ends with whitespace.
pub open spec fn trims_at(t: Seq<char>, s: Seq<char>, i: int, j: int) -> bool {
    &&& 0 <= i <= j <= s.len()
    &&& t == s.subrange(i, j)
    &&& forall|k: int| 0 <= k < i ==> is_space(s[k])
    &&& forall|k: int| j <= k < s.len() ==> is_space(s[k])
    &&& i < j ==> !is_space(s[i]) && !is_space(s[j - 1])
}

/// The lines of `text`: its pieces between line feeds, without the empty
/// piece after a final line feed.
pub open spec fn lines_of(text: Seq<char>) -> Seq<Seq<char>> {
    let pieces = split_on(text, '\n');
    if pieces.last().len() == 0 {
        pieces.drop_last()
    } else {
        pieces
    }
}

/// `t` is some line of `text`, trimmed.
pub open spec fn is_name_of(t: Seq<char>, text: Seq<char>) -> bool {
    exists|k: int| 0 <= k < lines_of(text).len() && is_trim_of(t, #[trigger] lines_of(text)[k])
}

/// True for whitespace.
pub fn space(c: char) -> (b: bool)
    ensures
        b == is_space(c),
{
    ('\u{9}' <= c && c <= '\u{d}') || c == ' ' || c == '\u{85}' || c == '\u{a0}' || c == '\u{1680}'
        || ('\u{2000}' <= c && c <= '\u{200a}') || c == '\u{2028}' || c == '\u{2029}' || c
        == '\u{202f}' || c == '\u{205f}' || c == '\u{3000}'
}

/// `s` without the whitespace around it.
pub fn trim(s: &Vec<char>) -> (t: Vec<char>)
    ensures
        is_trim_of(t@, s@),
{
    let n: usize = s.len();
    let mut i: usize = 0;
    while i < n && space(s[i])
        invariant
            n == s.len(),
            i <= n,
            forall|k: int| 0 <= k < i ==> is_space(s@[k]),
        decreases n - i,
    {
        i += 1;
    }
    let mut j: usize = n;
    while j > i && space(s[j - 1])
        invariant
            n == s.len(),
            i <= j <= n,
            forall|k: int| j <= k < n ==> is_space(s@[k]),
        decreases j,
    {
        j -= 1;
    }
    let mut t: Vec<char> = Vec::new();
    let mut k: usize = i;
    while k < j
        invariant
            i <= k <= j,
            j <= s.len(),
            t@ == s@.subrange(i as int, k as int),
        decreases j - k,
    {
        t.push(s[k]);
        k += 1;
        assert(t@ == s@.subrange(i as int, k as int));
    }
    assert(trims_at(t@, s@, i as int, j as int));
    t
}

/// The names that `text` lists, one per line, trimmed: each once, in
/// ascending order.
pub fn parse_input(text: &str) -> (names: Vec<String>)
    ensures
        ascending(strings_view(names@)),
        forall|t: Seq<char>| strings_view(names@).contains(t) <==> is_name_of(t, text@),
{
    let chars = chars_of(text);
    let mut pieces = split(&chars, '\n');
    proof {
        crate::text::lemma_split_on_nonempty(text@, '\n');
        assert(pieces_view(pieces@).len() == pieces@.len());
        assert(pieces_view(pieces@).last() == pieces@.last()@);
    }
    if pieces[pieces.len() - 1].len() == 0 {
        let ghost before = pieces@;
        pieces.pop();
        assert(pieces_view(pieces@) == pieces_view(before).drop_last());
    }
    assert(pieces_view(pieces@) == lines_of(text@));
    let mut set = OutputFile::new(String::new());
    let mut k: usize = 0;
    while k < pieces.len()
        invariant
            k <= pieces.len(),
            pieces_view(pieces@) == lines_of(text@),
            set.wf(),
            forall|t: Seq<char>|
                strings_view(set.lines@).contains(t) <==> exists|m: int|
                    0 <= m < k && is_trim_of(t, #[trigger] lines_of(text@)[m]),
        decreases pieces.len() - k,
    {
        let ghost lines = lines_of(text@);
        let ghost before = strings_view(set.lines@);
        let name = trim(&pieces[k]);
        assert(pieces_view(pieces@)[k as int] == pieces@[k as int]@);
        let line = string_of(&name);
        set.add(line);
        proof {
            assert forall|t: Seq<char>| strings_view(set.lines@).contains(t) <==> exists|m: int|
                0 <= m < k + 1 && is_trim_of(t, #[trigger] lines[m]) by {
                if t == name@ {
                    assert(is_trim_of(t, lines[k as int]));
                }
                if exists|m: int| 0 <= m < k + 1 && is_trim_of(t, #[trigger] lines[m]) {
                    let m = choose|m: int| 0 <= m < k + 1 && is_trim_of(t, #[trigger] lines[m]);
                    if m == k {
                        lemma_trim_unique(t, name@, lines[k as int]);
                    }
                }
            }
        }
        k += 1;
    }
    set.lines
}

/// A text has one trimmed form.
pub proof fn lemma_trim_unique(t: Seq<char>, u: Seq<char>, s: Seq<char>)
    requires
        is_trim_of(t, s),
        is_trim_of(u, s),
    ensures
        t == u,
{
    let (i, j) = choose|i: int, j: int| trims_at(t, s, i, j);
    let (a, b) = choose|a: int, b: int| trims_at(u, s, a, b);
    if i < j {
        // s[i] and s[j - 1] are no whitespace, so they lie within a..b
        assert(a <= i && j <= b);
        assert(a < b);
        assert(i <= a && b <= j);
    } else {
        // all of s is whitespace
        if a < b {
            assert(!is_space(s[a]));
        }
        assert(t =~= u);
    }
}

} // verus!
