//! Splitting a document into heading-delimited sections.
//!
//! A document is split on the heading glyph `#`; fragments that hold only
//! whitespace are discarded. In each remaining fragment the first line,
//! trimmed, is the section's name, and the trimmed remainder is its body. A
//! one-character name marks a plain description; a longer name marks a room
//! whose body is a box net.

use vstd::prelude::*;

verus! {

/// Whether a character counts as whitespace when trimming: the ASCII blank
/// characters.
pub open spec fn is_blank(c: char) -> bool {
    c == ' ' || c == '\t' || c == '\r' || c == '\n'
}

/// The fragments of `s` between occurrences of `sep`: always one more
/// fragment than there are separators, in order, possibly empty.
pub open spec fn split_on(s: Seq<char>, sep: char) -> Seq<Seq<char>>
    decreases s.len(),
{
    if s.len() == 0 {
        seq![Seq::<char>::empty()]
    } else if s.last() == sep {
        split_on(s.drop_last(), sep).push(Seq::empty())
    } else {
        let r = split_on(s.drop_last(), sep);
        r.update(r.len() - 1, r.last().push(s.last()))
    }
}

/// Splitting always yields at least one fragment.
pub proof fn lemma_split_on_nonempty(s: Seq<char>, sep: char)
    ensures
        split_on(s, sep).len() >= 1,
    decreases s.len(),
{
    if s.len() > 0 {
        lemma_split_on_nonempty(s.drop_last(), sep);
    }
}

/// `s` with leading blank characters removed.
pub open spec fn trim_start(s: Seq<char>) -> Seq<char>
    decreases s.len(),
{
    if s.len() > 0 && is_blank(s[0]) {
        trim_start(s.drop_first())
    } else {
        s
    }
}

/// `s` with trailing blank characters removed.
pub open spec fn trim_end(s: Seq<char>) -> Seq<char>
    decreases s.len(),
{
    if s.len() > 0 && is_blank(s.last()) {
        trim_end(s.drop_last())
    } else {
        s
    }
}

/// `s` with surrounding blank characters removed.
pub open spec fn trimmed(s: Seq<char>) -> Seq<char> {
    trim_end(trim_start(s))
}

/// If the first `i` characters are blank and the one at `i` (if any) is not,
/// trimming the start drops exactly `i` characters.
proof fn lemma_trim_start_at(s: Seq<char>, i: int)
    requires
        0 <= i <= s.len(),
        forall|k: int| 0 <= k < i ==> is_blank(#[trigger] s[k]),
        i < s.len() ==> !is_blank(s[i]),
    ensures
        trim_start(s) == s.skip(i),
    decreases i,
{
    if i == 0 {
        assert(s.skip(0) =~= s);
    } else {
        assert(s.drop_first() =~= s.skip(1));
        lemma_trim_start_at(s.skip(1), i - 1);
        assert(s.skip(1).skip(i - 1) =~= s.skip(i));
    }
}

/// If the characters from `j` on are blank and the one before `j` (if any) is
/// not, trimming the end keeps exactly the first `j` characters.
proof fn lemma_trim_end_at(s: Seq<char>, j: int)
    requires
        0 <= j <= s.len(),
        forall|k: int| j <= k < s.len() ==> is_blank(#[trigger] s[k]),
        j > 0 ==> !is_blank(s[j - 1]),
    ensures
        trim_end(s) == s.take(j),
    decreases s.len(),
{
    if j == s.len() {
        assert(s.take(j) =~= s);
    } else {
        assert(s.drop_last() =~= s.take(s.len() - 1));
        lemma_trim_end_at(s.take(s.len() - 1), j);
        assert(s.take(s.len() - 1).take(j) =~= s.take(j));
    }
}

/// Whether an executable character is blank; agrees with [`is_blank`].
pub fn is_blank_char(c: char) -> (r: bool)
    ensures
        r == is_blank(c),
{
    c == ' ' || c == '\t' || c == '\r' || c == '\n'
}

/// The characters of `s` from `lo` (inclusive) to `hi` (exclusive), as a new
/// vector.
fn copy_range(s: &Vec<char>, lo: usize, hi: usize) -> (r: Vec<char>)
    requires
        lo <= hi <= s@.len(),
    ensures
        r@ == s@.subrange(lo as int, hi as int),
{
    let mut r: Vec<char> = Vec::new();
    let mut k: usize = lo;
    while k < hi
        invariant
            lo <= k <= hi <= s@.len(),
            r@ == s@.subrange(lo as int, k as int),
        decreases hi - k,
    {
        r.push(s[k]);
        proof {
            assert(s@.subrange(lo as int, k as int).push(s@[k as int]) =~= s@.subrange(
                lo as int,
                k as int + 1,
            ));
        }
        k = k + 1;
    }
    r
}

/// `s` with surrounding blank characters removed; agrees with [`trimmed`].
pub fn trim_chars(s: &Vec<char>) -> (r: Vec<char>)
    ensures
        r@ == trimmed(s@),
{
    let n: usize = s.len();
    let mut lo: usize = 0;
    while lo < n && is_blank_char(s[lo])
        invariant
            lo <= n,
            n == s@.len(),
            forall|k: int| 0 <= k < lo ==> is_blank(#[trigger] s@[k]),
        decreases n - lo,
    {
        lo = lo + 1;
    }
    proof {
        lemma_trim_start_at(s@, lo as int);
    }
    if lo == n {
        let r: Vec<char> = Vec::new();
        proof {
            assert(s@.skip(n as int) =~= Seq::<char>::empty());
            assert(trim_end(Seq::<char>::empty()) =~= Seq::<char>::empty());
            assert(r@ =~= trimmed(s@));
        }
        return r;
    }
    let mut hi: usize = n;
    while hi > lo + 1 && is_blank_char(s[hi - 1])
        invariant
            lo < hi <= n,
            n == s@.len(),
            forall|k: int| hi <= k < n ==> is_blank(#[trigger] s@[k]),
        decreases hi,
    {
        hi = hi - 1;
    }
    let ghost t = s@.skip(lo as int);
    proof {
        // The scan stops at the last non-blank character, which exists
        // because the one at `lo` is not blank.
        assert(!is_blank(s@[hi - 1]));
        assert forall|k: int| hi - lo <= k < t.len() implies is_blank(#[trigger] t[k]) by {
            assert(t[k] == s@[lo + k]);
        }
        assert(!is_blank(t[hi - lo - 1]));
        lemma_trim_end_at(t, hi as int - lo as int);
        assert(t.take(hi as int - lo as int) =~= s@.subrange(lo as int, hi as int));
    }
    copy_range(s, lo, hi)
}

/// The fragments of `s` between occurrences of `sep`; agrees with
/// [`split_on`].
pub fn split_chars(s: &Vec<char>, sep: char) -> (r: Vec<Vec<char>>)
    ensures
        r.deep_view() == split_on(s@, sep),
{
    let n: usize = s.len();
    let mut frags: Vec<Vec<char>> = Vec::new();
    let mut cur: Vec<char> = Vec::new();
    let mut i: usize = 0;
    proof {
        assert(s@.take(0) =~= Seq::<char>::empty());
        assert(frags.deep_view().push(cur@) =~~= split_on(s@.take(0), sep));
    }
    while i < n
        invariant
            i <= n,
            n == s@.len(),
            frags.deep_view().push(cur@) == split_on(s@.take(i as int), sep),
        decreases n - i,
    {
        let ghost pre = s@.take(i as int);
        let ghost r = split_on(pre, sep);
        proof {
            lemma_split_on_nonempty(pre, sep);
            assert(s@.take(i as int + 1).drop_last() =~= pre);
            assert(s@.take(i as int + 1).last() == s@[i as int]);
        }
        let c: char = s[i];
        if c == sep {
            let done = cur;
            cur = Vec::new();
            frags.push(done);
            proof {
                assert(frags.deep_view() =~~= r);
                assert(frags.deep_view().push(cur@) =~~= split_on(s@.take(i as int + 1), sep));
            }
        } else {
            cur.push(c);
            proof {
                assert(r.last() == cur@.drop_last());
                assert(cur@.drop_last().push(c) =~= cur@);
                assert(frags.deep_view().push(cur@) =~~= r.update(r.len() - 1, r.last().push(c)));
            }
        }
        i = i + 1;
    }
    proof {
        assert(s@.take(n as int) =~= s@);
    }
    frags.push(cur);
    proof {
        assert(frags.deep_view() =~~= split_on(s@, sep));
    }
    frags
}

/// The index of the first occurrence of `c` in `s` at position `i` or later.
pub open spec fn find_char_from(s: Seq<char>, c: char, i: int) -> Option<int>
    decreases s.len() - i,
{
    if i < 0 || i >= s.len() {
        None
    } else if s[i] == c {
        Some(i)
    } else {
        find_char_from(s, c, i + 1)
    }
}

/// If `c` does not occur in `[j, s.len())`, the search from `j` finds
/// nothing.
proof fn lemma_find_char_none(s: Seq<char>, c: char, j: int)
    requires
        0 <= j,
        forall|k: int| j <= k < s.len() ==> s[k] != c,
    ensures
        find_char_from(s, c, j) is None,
    decreases s.len() - j,
{
    if j < s.len() {
        lemma_find_char_none(s, c, j + 1);
    }
}

/// If `c` occurs at `i` and nowhere in `[j, i)`, the search from `j` finds
/// exactly `i`.
proof fn lemma_find_char_found(s: Seq<char>, c: char, j: int, i: int)
    requires
        0 <= j <= i < s.len(),
        s[i] == c,
        forall|k: int| j <= k < i ==> s[k] != c,
    ensures
        find_char_from(s, c, j) == Some(i),
    decreases i - j,
{
    if j < i {
        lemma_find_char_found(s, c, j + 1, i);
    }
}

/// The index of the first occurrence of `c` in `s`, if any; agrees with
/// [`find_char_from`] started at zero.
pub fn find_first(s: &Vec<char>, c: char) -> (r: Option<usize>)
    ensures
        match r {
            Some(i) => find_char_from(s@, c, 0) == Some(i as int) && i < s@.len()
                && s@[i as int] == c,
            None => find_char_from(s@, c, 0) is None,
        },
{
    let n: usize = s.len();
    let mut i: usize = 0;
    while i < n
        invariant
            i <= n,
            n == s@.len(),
            forall|k: int| 0 <= k < i ==> s@[k] != c,
        decreases n - i,
    {
        if s[i] == c {
            proof {
                lemma_find_char_found(s@, c, 0, i as int);
            }
            return Some(i);
        }
        i = i + 1;
    }
    proof {
        lemma_find_char_none(s@, c, 0);
    }
    None
}

} // verus!

use crate::net::NetError;
use crate::net::Room;
use crate::net::net_accepted;
use crate::net::parse_error_cond;
use crate::net::room_ok_cond;

verus! {

/// The name and body of a section held in one fragment: the trimmed first
/// line of the trimmed fragment, and the trimmed remainder.
pub open spec fn section_of(frag: Seq<char>) -> (Seq<char>, Seq<char>) {
    let t = trimmed(frag);
    match find_char_from(t, '\n', 0) {
        None => (trimmed(t), Seq::<char>::empty()),
        Some(i) => (trimmed(t.take(i)), trimmed(t.skip(i + 1))),
    }
}

/// The sections of a fragment list: one per fragment that holds more than
/// whitespace, in order.
pub open spec fn sections_from(frags: Seq<Seq<char>>) -> Seq<(Seq<char>, Seq<char>)>
    decreases frags.len(),
{
    if frags.len() == 0 {
        Seq::empty()
    } else {
        let init = sections_from(frags.drop_last());
        if trimmed(frags.last()).len() > 0 {
            init.push(section_of(frags.last()))
        } else {
            init
        }
    }
}

/// The sections of a document: the document is split on the heading glyph,
/// and every fragment that holds more than whitespace becomes one section.
pub open spec fn sections_of(text: Seq<char>) -> Seq<(Seq<char>, Seq<char>)> {
    sections_from(split_on(text, '#'))
}

/// A named section of the document.
pub struct Section {
    /// The trimmed first line of the section.
    pub name: Vec<char>,
    /// The trimmed remainder of the section.
    pub body: Vec<char>,
}

/// An exact copy of a character vector.
fn clone_chars(s: &Vec<char>) -> (r: Vec<char>)
    ensures
        r@ == s@,
{
    let r = copy_range(s, 0, s.len());
    proof {
        assert(s@.subrange(0, s@.len() as int) =~= s@);
    }
    r
}

/// Splits a document on the heading glyph into its sections, discarding
/// whitespace-only fragments; agrees with [`sections_of`].
pub fn split_document(text: &Vec<char>) -> (r: Vec<Section>)
    ensures
        r@.len() == sections_of(text@).len(),
        forall|j: int|
            0 <= j < r@.len() ==> (#[trigger] r@[j]).name@ == sections_of(text@)[j].0
                && r@[j].body@ == sections_of(text@)[j].1,
{
    let frags: Vec<Vec<char>> = split_chars(text, '#');
    let ghost fv = frags.deep_view();
    let m: usize = frags.len();
    let mut out: Vec<Section> = Vec::new();
    let mut j: usize = 0;
    proof {
        assert(fv.take(0) =~= Seq::<Seq<char>>::empty());
    }
    while j < m
        invariant
            j <= m,
            m == fv.len(),
            fv == frags.deep_view(),
            fv == split_on(text@, '#'),
            out@.len() == sections_from(fv.take(j as int)).len(),
            forall|k: int|
                0 <= k < out@.len() ==> (#[trigger] out@[k]).name@ == sections_from(
                    fv.take(j as int),
                )[k].0 && out@[k].body@ == sections_from(fv.take(j as int))[k].1,
        decreases m - j,
    {
        let ghost pre = fv.take(j as int);
        proof {
            assert(fv[j as int] == frags@[j as int]@);
            assert(fv.take(j as int + 1).drop_last() =~= pre);
            assert(fv.take(j as int + 1).last() == fv[j as int]);
        }
        let t: Vec<char> = trim_chars(&frags[j]);
        if t.len() > 0 {
            let name: Vec<char>;
            let body: Vec<char>;
            match find_first(&t, '\n') {
                None => {
                    name = trim_chars(&t);
                    body = Vec::new();
                },
                Some(i) => {
                    let head: Vec<char> = copy_range(&t, 0, i);
                    let tail: Vec<char> = copy_range(&t, i + 1, t.len());
                    proof {
                        assert(head@ =~= t@.take(i as int));
                        assert(tail@ =~= t@.skip(i as int + 1));
                    }
                    name = trim_chars(&head);
                    body = trim_chars(&tail);
                },
            }
            proof {
                assert((name@, body@) == section_of(fv[j as int]));
            }
            out.push(Section { name, body });
        }
        j = j + 1;
    }
    proof {
        assert(fv.take(m as int) =~= fv);
    }
    out
}

/// What one section of the document turned into.
#[derive(Debug)]
pub enum DocItem {
    /// A section whose name is a single character: a plain description that
    /// the visual pipeline ignores.
    Description {
        /// The one-character name.
        label: char,
        /// The body text of the description.
        text: Vec<char>,
    },
    /// A section whose name is longer: a room parsed from its box net.
    Room(Room),
}

/// The character of a trailing carriage return removed from a line.
pub open spec fn strip_cr(l: Seq<char>) -> Seq<char> {
    if l.len() > 0 && l.last() == '\r' {
        l.drop_last()
    } else {
        l
    }
}

/// The lines of a body: the text split on line feeds, each line without its
/// trailing carriage return; an empty body has no lines.
pub open spec fn lines_of(s: Seq<char>) -> Seq<Seq<char>> {
    if s.len() == 0 {
        Seq::empty()
    } else {
        split_on(s, '\n').map_values(|l: Seq<char>| strip_cr(l))
    }
}

/// Splits a body into its lines; agrees with [`lines_of`].
pub fn split_lines(s: &Vec<char>) -> (r: Vec<Vec<char>>)
    ensures
        r.deep_view() == lines_of(s@),
{
    let mut r: Vec<Vec<char>> = Vec::new();
    if s.len() == 0 {
        proof {
            assert(r.deep_view() =~~= lines_of(s@));
        }
        return r;
    }
    let parts: Vec<Vec<char>> = split_chars(s, '\n');
    let ghost pv = parts.deep_view();
    let m: usize = parts.len();
    let mut j: usize = 0;
    while j < m
        invariant
            j <= m,
            m == pv.len(),
            pv == parts.deep_view(),
            r@.len() == j,
            forall|k: int| 0 <= k < j ==> (#[trigger] r@[k])@ == strip_cr(pv[k]),
        decreases m - j,
    {
        let p: &Vec<char> = &parts[j];
        proof {
            assert(pv[j as int] == parts@[j as int]@);
        }
        let line: Vec<char>;
        if p.len() > 0 && p[p.len() - 1] == '\r' {
            line = copy_range(p, 0, p.len() - 1);
            proof {
                assert(line@ =~= pv[j as int].drop_last());
            }
        } else {
            line = clone_chars(p);
        }
        r.push(line);
        j = j + 1;
    }
    proof {
        assert(r.deep_view() =~~= lines_of(s@));
    }
    r
}

/// Whether parsing the document fails at section `j` with this error: the
/// section is a room, its body is rejected with `e`, and every earlier room
/// section is accepted.
pub open spec fn doc_error_at(e: NetError, secs: Seq<(Seq<char>, Seq<char>)>, j: int) -> bool {
    &&& 0 <= j < secs.len()
    &&& secs[j].0.len() != 1
    &&& parse_error_cond(e, lines_of(secs[j].1))
    &&& forall|k: int|
        0 <= k < j ==> ((#[trigger] secs[k]).0.len() != 1 ==> net_accepted(lines_of(secs[k].1)))
}

/// Appends one parsed item.
fn push_item(v: &mut Vec<DocItem>, it: DocItem)
    ensures
        final(v)@ == old(v)@.push(it),
{
    v.push(it);
}

/// What appending an element does to a sequence: one longer, the prefix
/// unchanged, the new element at the end.
proof fn lemma_push_effect(pre: Seq<DocItem>, post: Seq<DocItem>, v: DocItem)
    requires
        post == pre.push(v),
    ensures
        post.len() == pre.len() + 1,
        forall|k: int| 0 <= k < pre.len() ==> #[trigger] post[k] == pre[k],
        post[pre.len() as int] == v,
{
}

/// Whether one parsed item is what this section prescribes: a description
/// carrying the one-character name and the body, or a parsed room of the
/// body's net.
pub open spec fn item_matches_section(item: DocItem, sec: (Seq<char>, Seq<char>)) -> bool {
    match item {
        DocItem::Description { label, text: t } => sec.0.len() == 1 && label == sec.0[0] && t@
            == sec.1,
        DocItem::Room(room) => sec.0.len() != 1 && room_ok_cond(room, lines_of(sec.1)),
    }
}

/// Parses a whole document: splits it into sections, keeps one-character
/// names as descriptions, and parses every other section's body as the box
/// net of a room. The first rejected room stops the parse with its error.
#[verifier::rlimit(100)]
pub fn parse_document(text: &Vec<char>) -> (r: Result<Vec<DocItem>, NetError>)
    ensures
        ({
            let secs = sections_of(text@);
            match r {
                Ok(items) => {
                    &&& items@.len() == secs.len()
                    &&& forall|j: int|
                        0 <= j < secs.len() ==> item_matches_section(#[trigger] items@[j], secs[j])
                },
                Err(e) => exists|j: int| doc_error_at(e, secs, j),
            }
        }),
{
    let ghost secs = sections_of(text@);
    let sections: Vec<Section> = split_document(text);
    let m: usize = sections.len();
    let mut items: Vec<DocItem> = Vec::new();
    let mut j: usize = 0;
    while j < m
        invariant
            j <= m,
            m == secs.len(),
            secs == sections_of(text@),
            sections@.len() == m,
            forall|k: int|
                0 <= k < m ==> (#[trigger] sections@[k]).name@ == secs[k].0
                    && sections@[k].body@ == secs[k].1,
            items@.len() == j,
            forall|k: int| 0 <= k < j ==> item_matches_section(#[trigger] items@[k], secs[k]),
        decreases m - j,
    {
        let section: &Section = &sections[j];
        proof {
            assert(sections@[j as int].name@ == secs[j as int].0 && sections@[j as int].body@
                == secs[j as int].1);
        }
        let ghost prev = items@;
        if section.name.len() == 1 {
            let label: char = section.name[0];
            let text_copy: Vec<char> = clone_chars(&section.body);
            let item = DocItem::Description { label, text: text_copy };
            let ghost newit = item;
            push_item(&mut items, item);
            proof {
                lemma_push_effect(prev, items@, newit);
                assert(item_matches_section(newit, secs[j as int]));
                assert forall|k: int| 0 <= k < j + 1 implies item_matches_section(
                    #[trigger] items@[k],
                    secs[k],
                ) by {
                    if k < j {
                        assert(items@[k] == prev[k]);
                    } else {
                        assert(items@[k] == newit);
                    }
                }
            }
        } else {
            let lines: Vec<Vec<char>> = split_lines(&section.body);
            match crate::net::parse_room(&lines) {
                Ok(room) => {
                    proof {
                        assert(room_ok_cond(room, lines_of(secs[j as int].1)));
                    }
                    let item = DocItem::Room(room);
                    let ghost newit = item;
                    push_item(&mut items, item);
                    proof {
                        lemma_push_effect(prev, items@, newit);
                        assert(item_matches_section(newit, secs[j as int]));
                        assert forall|k: int| 0 <= k < j + 1 implies item_matches_section(
                            #[trigger] items@[k],
                            secs[k],
                        ) by {
                            if k < j {
                                assert(items@[k] == prev[k]);
                            } else {
                                assert(items@[k] == newit);
                            }
                        }
                    }
                },
                Err(e) => {
                    proof {
                        assert forall|k: int|
                            0 <= k < j && (#[trigger] secs[k]).0.len() != 1 implies net_accepted(
                            lines_of(secs[k].1),
                        ) by {
                            assert(item_matches_section(items@[k], secs[k]));
                        }
                        assert(doc_error_at(e, secs, j as int));
                    }
                    return Err(e);
                },
            }
        }
        j = j + 1;
    }
    Ok(items)
}

} // verus!
