//! Coding mode: reading the file edits a model proposes, keeping them inside
//! the workspace, noticing when experts overwrite each other, and the
//! decisions of a coding run.
use vstd::prelude::*;
use vstd::string::*;
use crate::model::{Council, FileEdit};
use crate::text::{
    chars_of, contains_spec, find_from, find_from_spec, lemma_contains_piece, lemma_contains_trans,
    lemma_find_from, occurs_at, trim, trim_spec,
};
use crate::council::{
    expert_item, ids_view, join_spec, lemma_join_contains, statements_view, transcript,
    transcript_text, Statements,
};

verus! {

// ── Parsing `<write_file>` blocks ──

/// The opening of a file block, up to the path.
pub open spec fn start_tag() -> Seq<char> {
    "<write_file path=\""@
}

/// What ends the path and the opening tag.
pub open spec fn path_end_tag() -> Seq<char> {
    "\">"@
}

/// The closing tag of a file block.
pub open spec fn end_tag() -> Seq<char> {
    "</write_file>"@
}

/// The edits found in `text` from position `cursor` on: each
/// `<write_file path="P">C</write_file>` block in order gives the path `P`
/// and the content `C`; the search stops at the first block that is not
/// complete.
pub open spec fn parse_edits_from(text: Seq<char>, cursor: int) -> Seq<(Seq<char>, Seq<char>)>
    decreases text.len() + 1 - cursor,
{
    if cursor < 0 {
        Seq::empty()
    } else {
        match find_from_spec(text, start_tag(), cursor) {
            None => Seq::empty(),
            Some(s) => {
                let ps = s + start_tag().len();
                match find_from_spec(text, path_end_tag(), ps) {
                    None => Seq::empty(),
                    Some(pe) => {
                        let cs = pe + path_end_tag().len();
                        match find_from_spec(text, end_tag(), cs) {
                            None => Seq::empty(),
                            Some(ce) => {
                                proof {
                                    lemma_find_from(text, start_tag(), cursor);
                                    lemma_find_from(text, path_end_tag(), ps);
                                    lemma_find_from(text, end_tag(), cs);
                                    reveal_strlit("</write_file>");
                                }
                                seq![(text.subrange(ps, pe), text.subrange(cs, ce))]
                                    + parse_edits_from(text, ce + end_tag().len())
                            },
                        }
                    },
                }
            },
        }
    }
}

/// The views of a list of edits.
pub open spec fn edits_view(v: Seq<FileEdit>) -> Seq<(Seq<char>, Seq<char>)> {
    v.map_values(|e: FileEdit| (e.path@, e.content@))
}

/// Reads every complete `<write_file path="...">...</write_file>` block of a
/// model's answer, in order. A block whose tag or closing tag is missing ends
/// the search, so a truncated answer yields the blocks before it.
pub fn parse_file_edits(text: &str) -> (edits: Vec<FileEdit>)
    ensures
        edits_view(edits@) == parse_edits_from(text@, 0),
{
    let t = chars_of(text);
    let start = chars_of("<write_file path=\"");
    let path_end = chars_of("\">");
    let end = chars_of("</write_file>");
    let mut edits: Vec<FileEdit> = Vec::new();
    let mut cursor: usize = 0;
    loop
        invariant
            t@ == text@,
            start@ == start_tag(),
            path_end@ == path_end_tag(),
            end@ == end_tag(),
            cursor <= t@.len(),
            parse_edits_from(text@, 0) == edits_view(edits@) + parse_edits_from(
                text@,
                cursor as int,
            ),
        decreases t@.len() - cursor,
    {
        let ghost old_edits = edits_view(edits@);
        proof {
            lemma_find_from(t@, start@, cursor as int);
        }
        let s = match find_from(&t, &start, cursor) {
            Some(s) => s,
            None => {
                assert(edits_view(edits@) + Seq::empty() =~= edits_view(edits@));
                return edits;
            },
        };
        assert(occurs_at(t@, start@, s as int));
        assert(s + start@.len() <= t@.len());
        assert(start@.len() == start.len());
        assert(t@.len() == t.len());
        let ps = s + start.len();
        proof {
            lemma_find_from(t@, path_end@, ps as int);
        }
        let pe = match find_from(&t, &path_end, ps) {
            Some(pe) => pe,
            None => {
                assert(edits_view(edits@) + Seq::empty() =~= edits_view(edits@));
                return edits;
            },
        };
        assert(occurs_at(t@, path_end@, pe as int));
        let cs = pe + path_end.len();
        proof {
            lemma_find_from(t@, end@, cs as int);
        }
        let ce = match find_from(&t, &end, cs) {
            Some(ce) => ce,
            None => {
                assert(edits_view(edits@) + Seq::empty() =~= edits_view(edits@));
                return edits;
            },
        };
        assert(occurs_at(t@, end@, ce as int));
        let path = String::from_str(text.substring_char(ps, pe));
        let content = String::from_str(text.substring_char(cs, ce));
        edits.push(FileEdit { path, content });
        proof {
            reveal_strlit("</write_file>");
            assert(edits_view(edits@) =~= old_edits.push((text@.subrange(ps as int, pe as int), text@.subrange(cs as int, ce as int))));
            assert(parse_edits_from(text@, cursor as int) == seq![(text@.subrange(ps as int, pe as int), text@.subrange(cs as int, ce as int))] + parse_edits_from(text@, ce + end_tag().len()));
            assert(old_edits.push((text@.subrange(ps as int, pe as int), text@.subrange(cs as int, ce as int))) + parse_edits_from(text@, ce + end_tag().len()) =~= old_edits + (seq![(text@.subrange(ps as int, pe as int), text@.subrange(cs as int, ce as int))] + parse_edits_from(text@, ce + end_tag().len())));
        }
        cursor = ce + end.len();
    }
}

/// The text of one file block.
pub open spec fn render_edit(path: Seq<char>, content: Seq<char>) -> Seq<char> {
    start_tag() + path + path_end_tag() + content + end_tag()
}

/// The text of a list of file blocks, one after the other.
pub open spec fn render_edits(edits: Seq<(Seq<char>, Seq<char>)>) -> Seq<char>
    decreases edits.len(),
{
    if edits.len() == 0 {
        Seq::empty()
    } else {
        render_edit(edits[0].0, edits[0].1) + render_edits(edits.drop_first())
    }
}

/// An edit that a file block can carry: its path holds no `">` and its
/// content holds no `</write_file>`.
pub open spec fn renderable(edit: (Seq<char>, Seq<char>)) -> bool {
    &&& find_from_spec(edit.0, path_end_tag(), 0) is None
    &&& find_from_spec(edit.1, end_tag(), 0) is None
}

proof fn lemma_find_between(h: Seq<char>, n: Seq<char>, from: int, to: int)
    requires
        0 <= from <= to,
        forall|j: int| from <= j < to ==> !occurs_at(h, n, j),
    ensures
        find_from_spec(h, n, from) == find_from_spec(h, n, to),
    decreases to - from,
{
    if from < to {
        if from + n.len() <= h.len() {
            assert(!occurs_at(h, n, from));
        }
        lemma_find_between(h, n, from + 1, to);
    }
}

proof fn lemma_find_shift(a: Seq<char>, b: Seq<char>, n: Seq<char>, k: int)
    requires
        0 <= k,
    ensures
        find_from_spec(a + b, n, a.len() + k) == match find_from_spec(b, n, k) {
            Some(i) => Some(a.len() + i),
            None => None,
        },
    decreases b.len() + 1 - k,
{
    let ab = a + b;
    let s = a.len() + k;
    if s + n.len() > ab.len() {
    } else {
        assert(ab.subrange(s, s + n.len()) =~= b.subrange(k, k + n.len()));
        if b.subrange(k, k + n.len()) != n {
            lemma_find_shift(a, b, n, k + 1);
        }
    }
}

proof fn lemma_parse_shift(a: Seq<char>, b: Seq<char>, k: int)
    requires
        0 <= k,
    ensures
        parse_edits_from(a + b, a.len() + k) == parse_edits_from(b, k),
    decreases b.len() + 1 - k,
{
    let ab = a + b;
    lemma_find_shift(a, b, start_tag(), k);
    lemma_find_from(b, start_tag(), k);
    match find_from_spec(b, start_tag(), k) {
        None => {},
        Some(s) => {
            let ps = s + start_tag().len();
            lemma_find_shift(a, b, path_end_tag(), ps);
            lemma_find_from(b, path_end_tag(), ps);
            match find_from_spec(b, path_end_tag(), ps) {
                None => {},
                Some(pe) => {
                    let cs = pe + path_end_tag().len();
                    lemma_find_shift(a, b, end_tag(), cs);
                    lemma_find_from(b, end_tag(), cs);
                    match find_from_spec(b, end_tag(), cs) {
                        None => {},
                        Some(ce) => {
                            reveal_strlit("</write_file>");
                            assert(ab.subrange(a.len() + ps, a.len() + pe) =~= b.subrange(ps, pe));
                            assert(ab.subrange(a.len() + cs, a.len() + ce) =~= b.subrange(cs, ce));
                            lemma_parse_shift(a, b, ce + end_tag().len());
                            assert(a.len() + ce + end_tag().len() == a.len() + (ce + end_tag().len()));
                        },
                    }
                },
            }
        },
    }
}

proof fn lemma_parse_one(p: Seq<char>, c: Seq<char>, rest: Seq<char>)
    requires
        renderable((p, c)),
    ensures
        parse_edits_from(render_edit(p, c) + rest, 0) == seq![(p, c)] + parse_edits_from(rest, 0),
{
    reveal_strlit("<write_file path=\"");
    reveal_strlit("\">");
    reveal_strlit("</write_file>");
    let item = render_edit(p, c);
    let text = item + rest;
    let sl: int = start_tag().len() as int;
    let ps: int = sl;
    let pe: int = ps + p.len();
    let cs: int = pe + 2;
    let ce: int = cs + c.len();
    assert(text.subrange(0, sl) =~= start_tag());
    assert(find_from_spec(text, start_tag(), 0) == Some(0int));
    lemma_find_from(p, path_end_tag(), 0);
    assert forall|j: int| ps <= j < pe implies !occurs_at(text, path_end_tag(), j) by {
        if occurs_at(text, path_end_tag(), j) {
            if j + 1 < pe {
                assert(p.subrange(j - ps, j - ps + 2) =~= text.subrange(j, j + 2));
                assert(occurs_at(p, path_end_tag(), j - ps));
            } else {
                assert(text[j + 1] == text.subrange(j, j + 2)[1]);
                assert(text[j + 1] == '"');
            }
        }
    }
    lemma_find_between(text, path_end_tag(), ps, pe);
    assert(text.subrange(pe, pe + 2) =~= path_end_tag());
    assert(find_from_spec(text, path_end_tag(), pe) == Some(pe));
    lemma_find_from(c, end_tag(), 0);
    assert forall|j: int| cs <= j < ce implies !occurs_at(text, end_tag(), j) by {
        if occurs_at(text, end_tag(), j) {
            if j + 13 <= ce {
                assert(c.subrange(j - cs, j - cs + 13) =~= text.subrange(j, j + 13));
                assert(occurs_at(c, end_tag(), j - cs));
            } else {
                assert(text[ce] == '<');
                assert(text.subrange(j, j + 13)[ce - j] == text[ce]);
                assert(end_tag()[ce - j] == '<');
            }
        }
    }
    lemma_find_between(text, end_tag(), cs, ce);
    assert(text.subrange(ce, ce + 13) =~= end_tag());
    assert(find_from_spec(text, end_tag(), ce) == Some(ce));
    assert(text.subrange(ps, pe) =~= p);
    assert(text.subrange(cs, ce) =~= c);
    assert(item.len() == ce + 13);
    lemma_parse_shift(item, rest, 0);
}

/// Writing edits out as file blocks and reading the text back gives the same
/// edits, in the same order, for every edit a block can carry.
pub proof fn lemma_parse_render_roundtrip(edits: Seq<(Seq<char>, Seq<char>)>)
    requires
        forall|i: int| 0 <= i < edits.len() ==> renderable(#[trigger] edits[i]),
    ensures
        parse_edits_from(render_edits(edits), 0) == edits,
    decreases edits.len(),
{
    if edits.len() == 0 {
        assert(find_from_spec(Seq::<char>::empty(), start_tag(), 0) is None) by {
            reveal_strlit("<write_file path=\"");
        }
    } else {
        let tail = edits.drop_first();
        assert forall|i: int| 0 <= i < tail.len() implies renderable(#[trigger] tail[i]) by {
            assert(tail[i] == edits[i + 1]);
        }
        lemma_parse_render_roundtrip(tail);
        assert(renderable(edits[0]));
        lemma_parse_one(edits[0].0, edits[0].1, render_edits(tail));
        assert(seq![(edits[0].0, edits[0].1)] + tail =~= edits);
    }
}

/// Text with file blocks between pieces of other text: `gaps[0]`, the first
/// block, `gaps[1]`, the second block, and so on, ending with the last gap.
pub open spec fn render_with_gaps(gaps: Seq<Seq<char>>, edits: Seq<(Seq<char>, Seq<char>)>) -> Seq<char>
    decreases edits.len(),
{
    if edits.len() == 0 || gaps.len() == 0 {
        if gaps.len() > 0 {
            gaps[0]
        } else {
            Seq::empty()
        }
    } else {
        gaps[0] + render_edit(edits[0].0, edits[0].1) + render_with_gaps(
            gaps.drop_first(),
            edits.drop_first(),
        )
    }
}

/// Text that holds no opening tag of a file block.
pub open spec fn no_start_tag(s: Seq<char>) -> bool {
    find_from_spec(s, start_tag(), 0) is None
}

proof fn lemma_skip_gap(g: Seq<char>, x: Seq<char>)
    requires
        no_start_tag(g),
        x.len() > 0,
        x[0] == '<',
    ensures
        parse_edits_from(g + x, 0) == parse_edits_from(x, 0),
{
    reveal_strlit("<write_file path=\"");
    let t = g + x;
    lemma_find_from(g, start_tag(), 0);
    assert forall|j: int| 0 <= j < g.len() implies !occurs_at(t, start_tag(), j) by {
        if occurs_at(t, start_tag(), j) {
            if j + 18 <= g.len() {
                assert(g.subrange(j, j + 18) =~= t.subrange(j, j + 18));
                assert(occurs_at(g, start_tag(), j));
            } else {
                let k = g.len() - j;
                assert(t[g.len() as int] == '<');
                assert(t.subrange(j, j + 18)[k] == t[g.len() as int]);
                assert(start_tag()[k] == '<');
            }
        }
    }
    lemma_find_between(t, start_tag(), 0, g.len() as int);
    lemma_parse_shift(g, x, 0);
}

/// Writing edits out as file blocks with any other text between, before and
/// after them, and reading the text back, gives the same edits in the same
/// order, as long as the other text holds no opening tag and each edit is
/// one a block can carry.
pub proof fn lemma_parse_render_with_gaps(gaps: Seq<Seq<char>>, edits: Seq<(Seq<char>, Seq<char>)>)
    requires
        gaps.len() == edits.len() + 1,
        forall|i: int| 0 <= i < gaps.len() ==> no_start_tag(#[trigger] gaps[i]),
        forall|i: int| 0 <= i < edits.len() ==> renderable(#[trigger] edits[i]),
    ensures
        parse_edits_from(render_with_gaps(gaps, edits), 0) == edits,
    decreases edits.len(),
{
    reveal_strlit("<write_file path=\"");
    if edits.len() == 0 {
        assert(no_start_tag(gaps[0]));
        assert(parse_edits_from(gaps[0], 0) =~= edits);
    } else {
        let g = gaps[0];
        let (p, c) = edits[0];
        let rest_g = gaps.drop_first();
        let rest_e = edits.drop_first();
        assert forall|i: int| 0 <= i < rest_g.len() implies no_start_tag(#[trigger] rest_g[i]) by {
            assert(rest_g[i] == gaps[i + 1]);
        }
        assert forall|i: int| 0 <= i < rest_e.len() implies renderable(#[trigger] rest_e[i]) by {
            assert(rest_e[i] == edits[i + 1]);
        }
        lemma_parse_render_with_gaps(rest_g, rest_e);
        let r = render_with_gaps(rest_g, rest_e);
        assert(renderable(edits[0]));
        lemma_parse_one(p, c, r);
        let x = render_edit(p, c) + r;
        assert(x[0] == start_tag()[0]);
        assert(no_start_tag(gaps[0]));
        lemma_skip_gap(g, x);
        assert(render_with_gaps(gaps, edits) =~= g + x);
        assert(seq![(p, c)] + rest_e =~= edits);
    }
}

// ── Keeping writes inside the workspace ──

/// The first position at or after `from` where `s` holds `c`.
pub open spec fn first_index_of(s: Seq<char>, c: char, from: int) -> Option<int>
    decreases s.len() - from,
{
    if from < 0 || from >= s.len() {
        None
    } else if s[from] == c {
        Some(from)
    } else {
        first_index_of(s, c, from + 1)
    }
}

/// `first_index_of` finds the first `c` at or after `from`.
pub proof fn lemma_first_index_of(s: Seq<char>, c: char, from: int)
    requires
        0 <= from,
    ensures
        match first_index_of(s, c, from) {
            Some(p) => from <= p < s.len() && s[p] == c && forall|k: int| from <= k < p ==> s[k] != c,
            None => forall|k: int| from <= k < s.len() ==> s[k] != c,
        },
    decreases s.len() - from,
{
    if from < s.len() && s[from] != c {
        lemma_first_index_of(s, c, from + 1);
    }
}

proof fn lemma_first_index_of_between(s: Seq<char>, c: char, from: int, to: int)
    requires
        0 <= from <= to,
        forall|k: int| from <= k < to ==> s[k] != c,
    ensures
        first_index_of(s, c, from) == first_index_of(s, c, to),
    decreases to - from,
{
    if from < to {
        lemma_first_index_of_between(s, c, from + 1, to);
    }
}

proof fn lemma_first_index_of_skip(s: Seq<char>, c: char, d: int, from: int)
    requires
        0 <= d <= s.len(),
        0 <= from,
    ensures
        first_index_of(s.skip(d), c, from) == match first_index_of(s, c, d + from) {
            Some(p) => Some(p - d),
            None => None,
        },
    decreases s.len() - (d + from),
{
    if d + from < s.len() && s[d + from] != c {
        lemma_first_index_of_skip(s, c, d, from + 1);
    }
}

/// The pieces of a path between its `/` separators, empty ones included.
pub open spec fn path_pieces(s: Seq<char>) -> Seq<Seq<char>>
    decreases s.len(),
{
    match first_index_of(s, '/', 0) {
        Some(p) => {
            proof {
                lemma_first_index_of(s, '/', 0);
            }
            seq![s.take(p)] + path_pieces(s.skip(p + 1))
        },
        None => seq![s],
    }
}

/// The normal components of a list of path pieces: empty pieces and `.`
/// vanish, and `..` makes the whole path unacceptable.
pub open spec fn pieces_to_parts(pieces: Seq<Seq<char>>) -> Option<Seq<Seq<char>>>
    decreases pieces.len(),
{
    if pieces.len() == 0 {
        Some(Seq::empty())
    } else {
        match pieces_to_parts(pieces.drop_last()) {
            None => None,
            Some(ps) => {
                let x = pieces.last();
                if x == ".."@ {
                    None
                } else if x.len() == 0 || x == "."@ {
                    Some(ps)
                } else {
                    Some(ps.push(x))
                }
            },
        }
    }
}

proof fn lemma_parts_none_stays(a: Seq<Seq<char>>, b: Seq<Seq<char>>)
    requires
        pieces_to_parts(a) is None,
    ensures
        pieces_to_parts(a + b) is None,
    decreases b.len(),
{
    if b.len() > 0 {
        lemma_parts_none_stays(a, b.drop_last());
        assert((a + b).drop_last() =~= a + b.drop_last());
    }
}

/// The components under the workspace root that a model-proposed path names,
/// or `None` for a path that could leave the root: an absolute path, or one
/// that goes up with `..`.
pub open spec fn workspace_parts_spec(relative: Seq<char>) -> Option<Seq<Seq<char>>> {
    if relative.len() > 0 && relative[0] == '/' {
        None
    } else {
        pieces_to_parts(path_pieces(relative))
    }
}

/// The views of a list of strings.
pub open spec fn strings_view(v: Seq<String>) -> Seq<Seq<char>> {
    v.map_values(|s: String| s@)
}

/// Splits a model-proposed path into the components to append to the
/// workspace root, refusing an absolute path or any `..`; `.` and empty
/// components are dropped. Whether a symlink on the way leads out of the
/// workspace is for the host to check on disk.
pub fn workspace_parts(relative: &str) -> (res: Option<Vec<String>>)
    ensures
        match res {
            Some(v) => workspace_parts_spec(relative@) == Some(strings_view(v@)),
            None => workspace_parts_spec(relative@) is None,
        },
{
    let c = chars_of(relative);
    if c.len() > 0 && c[0] == '/' {
        return None;
    }
    let mut parts: Vec<String> = Vec::new();
    let ghost mut done: Seq<Seq<char>> = Seq::empty();
    let mut start: usize = 0;
    let mut i: usize = 0;
    let ghost s = relative@;
    assert(s.skip(0) =~= s);
    while i < c.len()
        invariant
            c@ == s,
            s == relative@,
            start <= i <= c.len(),
            path_pieces(s) == done + path_pieces(s.skip(start as int)),
            pieces_to_parts(done) == Some(strings_view(parts@)),
            forall|k: int| start <= k < i ==> s[k] != '/',
        decreases c.len() - i,
    {
        if c[i] == '/' {
            let piece = String::from_str(relative.substring_char(start, i));
            proof {
                let rest = s.skip(start as int);
                lemma_first_index_of_between(s, '/', start as int, i as int);
                lemma_first_index_of_skip(s, '/', start as int, 0);
                lemma_first_index_of(s, '/', start as int);
                assert(first_index_of(rest, '/', 0) == Some(i - start));
                assert(rest.take(i - start) =~= s.subrange(start as int, i as int));
                assert(rest.skip(i - start + 1) =~= s.skip(i + 1));
                assert(path_pieces(rest) == seq![rest.take(i - start)] + path_pieces(rest.skip(i - start + 1)));
                assert(path_pieces(s) =~= done.push(s.subrange(start as int, i as int)) + path_pieces(s.skip(i + 1)));
                assert(done.push(s.subrange(start as int, i as int)).drop_last() =~= done);
                done = done.push(s.subrange(start as int, i as int));
            }
            let ghost x = s.subrange(start as int, i as int);
            assert(piece@ == x);
            if piece == String::from_str("..") {
                proof {
                    assert(pieces_to_parts(done) is None);
                    lemma_parts_none_stays(done, path_pieces(s.skip(i + 1)));
                }
                return None;
            }
            let keep = !(piece == String::new() || piece == String::from_str("."));
            assert(keep == !(x.len() == 0 || x == "."@)) by {
                if x.len() == 0 {
                    assert(x =~= Seq::<char>::empty());
                }
            }
            if keep {
                let ghost prev = parts@;
                parts.push(piece);
                assert(strings_view(parts@) =~= strings_view(prev).push(x));
            }
            assert(pieces_to_parts(done) == Some(strings_view(parts@)));
            start = i + 1;
        }
        i = i + 1;
    }
    let piece = String::from_str(relative.substring_char(start, c.len()));
    proof {
        let rest = s.skip(start as int);
        lemma_first_index_of_between(s, '/', start as int, s.len() as int);
        lemma_first_index_of_skip(s, '/', start as int, 0);
        assert(first_index_of(rest, '/', 0) is None);
        assert(rest =~= s.subrange(start as int, s.len() as int));
        assert(path_pieces(s) =~= done.push(rest));
        assert(done.push(rest).drop_last() =~= done);
    }
    let ghost x = s.subrange(start as int, s.len() as int);
    assert(piece@ == x);
    if piece == String::from_str("..") {
        return None;
    }
    let keep = !(piece == String::new() || piece == String::from_str("."));
    assert(keep == !(x.len() == 0 || x == "."@)) by {
        if x.len() == 0 {
            assert(x =~= Seq::<char>::empty());
        }
    }
    if keep {
        let ghost prev = parts@;
        parts.push(piece);
        assert(strings_view(parts@) =~= strings_view(prev).push(x));
    }
    Some(parts)
}

/// No piece of a path holds a `/`.
pub proof fn lemma_pieces_have_no_slash(s: Seq<char>)
    ensures
        forall|k: int, j: int|
            0 <= k < path_pieces(s).len() && 0 <= j < path_pieces(s)[k].len() ==> #[trigger] path_pieces(s)[k][j] != '/',
    decreases s.len(),
{
    lemma_first_index_of(s, '/', 0);
    match first_index_of(s, '/', 0) {
        Some(p) => {
            let rest = s.skip(p + 1);
            lemma_pieces_have_no_slash(rest);
            assert forall|k: int, j: int|
                0 <= k < path_pieces(s).len() && 0 <= j < path_pieces(s)[k].len() implies #[trigger] path_pieces(s)[k][j] != '/' by {
                if k > 0 {
                    assert(path_pieces(s)[k] == path_pieces(rest)[k - 1]);
                }
            }
        },
        None => {},
    }
}

proof fn lemma_parts_are_normal(pieces: Seq<Seq<char>>)
    requires
        forall|k: int, j: int| 0 <= k < pieces.len() && 0 <= j < pieces[k].len() ==> #[trigger] pieces[k][j] != '/',
    ensures
        pieces_to_parts(pieces) matches Some(ps) ==> forall|k: int| 0 <= k < ps.len() ==> {
            let x = #[trigger] ps[k];
            &&& x.len() > 0
            &&& x != "."@
            &&& x != ".."@
            &&& forall|j: int| 0 <= j < x.len() ==> x[j] != '/'
        },
    decreases pieces.len(),
{
    if pieces.len() > 0 {
        let prev = pieces.drop_last();
        assert forall|k: int, j: int| 0 <= k < prev.len() && 0 <= j < prev[k].len() implies #[trigger] prev[k][j] != '/' by {
            assert(prev[k] == pieces[k]);
        }
        lemma_parts_are_normal(prev);
        let x = pieces.last();
        assert forall|j: int| 0 <= j < x.len() implies x[j] != '/' by {
            assert(x[j] == pieces[pieces.len() - 1][j]);
        }
    }
}

proof fn lemma_pieces_nonempty(s: Seq<char>)
    ensures
        path_pieces(s).len() >= 1,
{
    lemma_first_index_of(s, '/', 0);
}

proof fn lemma_join_cons(x: Seq<char>, rest: Seq<Seq<char>>, sep: Seq<char>)
    requires
        rest.len() >= 1,
    ensures
        join_spec(seq![x] + rest, sep) == x + sep + join_spec(rest, sep),
    decreases rest.len(),
{
    let all = seq![x] + rest;
    if rest.len() == 1 {
        assert(all.drop_last() =~= seq![x]);
        assert(all.last() == rest[0]);
        assert(join_spec(seq![x], sep) == x);
        assert(join_spec(rest, sep) == rest[0]);
        assert(join_spec(all, sep) == join_spec(all.drop_last(), sep) + sep + all.last());
    } else {
        assert(all.drop_last() =~= seq![x] + rest.drop_last());
        assert(all.last() == rest.last());
        assert(join_spec(all, sep) == join_spec(all.drop_last(), sep) + sep + all.last());
        assert(join_spec(rest, sep) == join_spec(rest.drop_last(), sep) + sep + rest.last());
        lemma_join_cons(x, rest.drop_last(), sep);
        assert(x + sep + join_spec(rest.drop_last(), sep) + sep + rest.last() =~= x + sep + (join_spec(
            rest.drop_last(),
            sep,
        ) + sep + rest.last()));
    }
}

/// Joining the pieces of a path with `/` gives the path back.
proof fn lemma_pieces_join(s: Seq<char>)
    ensures
        join_spec(path_pieces(s), seq!['/']) == s,
    decreases s.len(),
{
    lemma_first_index_of(s, '/', 0);
    match first_index_of(s, '/', 0) {
        Some(p) => {
            let rest = s.skip(p + 1);
            lemma_pieces_join(rest);
            lemma_pieces_nonempty(rest);
            lemma_join_cons(s.take(p), path_pieces(rest), seq!['/']);
            assert(s.take(p) + seq!['/'] + rest =~= s);
        },
        None => {},
    }
}

proof fn lemma_parts_filter(pieces: Seq<Seq<char>>)
    requires
        forall|k: int| 0 <= k < pieces.len() ==> #[trigger] pieces[k] != ".."@,
    ensures
        pieces_to_parts(pieces) == Some(pieces.filter(|x: Seq<char>| x.len() > 0 && x != "."@)),
    decreases pieces.len(),
{
    reveal(Seq::filter);
    let keep = |x: Seq<char>| x.len() > 0 && x != "."@;
    if pieces.len() > 0 {
        let prev = pieces.drop_last();
        assert forall|k: int| 0 <= k < prev.len() implies #[trigger] prev[k] != ".."@ by {
            assert(prev[k] == pieces[k]);
        }
        lemma_parts_filter(prev);
        assert(pieces.last() != ".."@);
        let x = pieces.last();
        if x.len() == 0 {
            assert(!keep(x));
        }
    } else {
        assert(pieces.filter(keep) =~= Seq::<Seq<char>>::empty());
    }
}

proof fn lemma_parts_refuse_up(pieces: Seq<Seq<char>>, k: int)
    requires
        0 <= k < pieces.len(),
        pieces[k] == ".."@,
    ensures
        pieces_to_parts(pieces) is None,
    decreases pieces.len(),
{
    if k < pieces.len() - 1 {
        assert(pieces.drop_last()[k] == pieces[k]);
        lemma_parts_refuse_up(pieces.drop_last(), k);
    }
}

/// What the workspace check accepts, exactly: a path is split at each `/`
/// into pieces (which join back into the path and hold no `/`). An absolute
/// path, or one with a `..` piece, is refused; any other path is accepted,
/// and its parts are its pieces with the empty and `.` pieces removed, in
/// order, so names such as `.github` or `.env` stay.
pub proof fn lemma_workspace_parts_complete(relative: Seq<char>)
    ensures
        join_spec(path_pieces(relative), seq!['/']) == relative,
        forall|k: int, j: int|
            0 <= k < path_pieces(relative).len() && 0 <= j < path_pieces(relative)[k].len()
                ==> #[trigger] path_pieces(relative)[k][j] != '/',
        relative.len() > 0 && relative[0] == '/' ==> workspace_parts_spec(relative) is None,
        (exists|k: int| 0 <= k < path_pieces(relative).len() && #[trigger] path_pieces(relative)[k] == ".."@)
            ==> workspace_parts_spec(relative) is None,
        !(relative.len() > 0 && relative[0] == '/') && (forall|k: int|
            0 <= k < path_pieces(relative).len() ==> #[trigger] path_pieces(relative)[k] != ".."@)
            ==> workspace_parts_spec(relative) == Some(
            path_pieces(relative).filter(|x: Seq<char>| x.len() > 0 && x != "."@),
        ),
{
    lemma_pieces_join(relative);
    lemma_pieces_have_no_slash(relative);
    let pieces = path_pieces(relative);
    if exists|k: int| 0 <= k < pieces.len() && #[trigger] pieces[k] == ".."@ {
        let k = choose|k: int| 0 <= k < pieces.len() && #[trigger] pieces[k] == ".."@;
        lemma_parts_refuse_up(pieces, k);
    } else {
        lemma_parts_filter(pieces);
    }
}

/// A path that `workspace_parts` accepts stays inside the workspace when its
/// parts are appended to the root one by one: no part is empty, `.` or `..`,
/// and none holds a `/`.
pub proof fn lemma_workspace_parts_stay_inside(relative: Seq<char>)
    ensures
        workspace_parts_spec(relative) matches Some(ps) ==> forall|k: int| 0 <= k < ps.len() ==> {
            let x = #[trigger] ps[k];
            &&& x.len() > 0
            &&& x != "."@
            &&& x != ".."@
            &&& forall|j: int| 0 <= j < x.len() ==> x[j] != '/'
        },
{
    lemma_pieces_have_no_slash(relative);
    lemma_parts_are_normal(path_pieces(relative));
}

/// The warning for an edit whose path would leave the workspace.
pub fn refused_write_warning(path: &str) -> (res: String)
    ensures
        res@ == "Refused to write '"@ + path@ + "': path resolves outside the workspace directory."@,
{
    let mut s = String::from_str("Refused to write '");
    s.append(path);
    s.append("': path resolves outside the workspace directory.");
    s
}

// ── Who wrote what ──

/// The latest author recorded for `path`, if any.
pub open spec fn last_author(log: Seq<(Seq<char>, Seq<char>)>, path: Seq<char>) -> Option<Seq<char>>
    decreases log.len(),
{
    if log.len() == 0 {
        None
    } else if log.last().0 == path {
        Some(log.last().1)
    } else {
        last_author(log.drop_last(), path)
    }
}

/// The warning for a path that two experts wrote in one round.
pub open spec fn overwrite_text(path: Seq<char>, previous: Seq<char>, expert: Seq<char>) -> Seq<char> {
    "'"@ + path + "' was written by ["@ + previous + "] and then overwritten by ["@ + expert
        + "]; only the later version was built."@
}

/// Recording that `expert` wrote `paths`, in order: the log grows by one
/// entry per path, and a path that already had an author gets a warning.
pub open spec fn record_spec(
    log: Seq<(Seq<char>, Seq<char>)>,
    expert: Seq<char>,
    paths: Seq<Seq<char>>,
) -> (Seq<(Seq<char>, Seq<char>)>, Seq<Seq<char>>)
    decreases paths.len(),
{
    if paths.len() == 0 {
        (log, Seq::empty())
    } else {
        let (l, w) = record_spec(log, expert, paths.drop_last());
        let p = paths.last();
        let w2 = match last_author(l, p) {
            Some(a) => w.push(overwrite_text(p, a, expert)),
            None => w,
        };
        (l.push((p, expert)), w2)
    }
}

proof fn lemma_last_author(log: Seq<(Seq<char>, Seq<char>)>, path: Seq<char>)
    ensures
        (exists|i: int| 0 <= i < log.len() && #[trigger] log[i].0 == path) <==> last_author(log, path) is Some,
        last_author(log, path) matches Some(a) ==> log.contains((path, a)),
    decreases log.len(),
{
    if log.len() > 0 {
        let prev = log.drop_last();
        lemma_last_author(prev, path);
        if log.last().0 == path {
            assert(log[log.len() - 1].0 == path);
            assert(log[log.len() - 1] == (path, log.last().1));
        } else {
            assert forall|i: int| 0 <= i < log.len() && #[trigger] log[i].0 == path implies 0 <= i < prev.len()
                && prev[i].0 == path by {
                assert(i != log.len() - 1);
                assert(prev[i] == log[i]);
            }
            assert forall|i: int| 0 <= i < prev.len() && #[trigger] prev[i].0 == path implies 0 <= i < log.len()
                && log[i].0 == path by {
                assert(prev[i] == log[i]);
            }
            if last_author(prev, path) is Some {
                let a = last_author(prev, path).unwrap();
                let i = choose|i: int| 0 <= i < prev.len() && prev[i] == (path, a);
                assert(log[i] == prev[i]);
            }
        }
    }
}

/// Recording a round's writes adds one entry per path written, in order,
/// and reports every overwrite: a path that an earlier write of the round
/// (already in the log, or earlier in this batch) produced gets a warning
/// naming that path, an earlier author of it, and the expert now writing.
/// A batch of distinct paths that nobody wrote before gets no warning.
pub proof fn lemma_record_reports_every_overwrite(
    log: Seq<(Seq<char>, Seq<char>)>,
    expert: Seq<char>,
    paths: Seq<Seq<char>>,
)
    ensures
        record_spec(log, expert, paths).0 == log + paths.map_values(|p: Seq<char>| (p, expert)),
        forall|k: int|
            #![trigger paths[k]]
            0 <= k < paths.len() && ((exists|i: int| 0 <= i < log.len() && #[trigger] log[i].0 == paths[k])
                || (exists|j: int| 0 <= j < k && #[trigger] paths[j] == paths[k])) ==> exists|a: Seq<char>|
                #![trigger overwrite_text(paths[k], a, expert)]
                record_spec(log, expert, paths).1.contains(overwrite_text(paths[k], a, expert)) && (log
                    + paths.take(k).map_values(|p: Seq<char>| (p, expert))).contains((paths[k], a)),
        (forall|i: int, k: int| 0 <= i < log.len() && 0 <= k < paths.len() ==> #[trigger] log[i].0 != #[trigger] paths[k])
            && (forall|j: int, k: int| 0 <= j < k < paths.len() ==> #[trigger] paths[j] != #[trigger] paths[k])
            ==> record_spec(log, expert, paths).1.len() == 0,
    decreases paths.len(),
{
    let f = |p: Seq<char>| (p, expert);
    if paths.len() == 0 {
        assert(log + paths.map_values(f) =~= log);
    } else {
        let n = paths.len() - 1;
        let init = paths.drop_last();
        let p = paths.last();
        lemma_record_reports_every_overwrite(log, expert, init);
        let (l, w) = record_spec(log, expert, init);
        assert(l == log + init.map_values(f));
        assert(log + paths.map_values(f) =~= l.push((p, expert)));
        assert(paths.take(n) =~= init);
        lemma_last_author(l, p);
        let w2 = record_spec(log, expert, paths).1;
        assert(forall|x: Seq<char>| w.contains(x) ==> w2.contains(x)) by {
            assert forall|x: Seq<char>| w.contains(x) implies w2.contains(x) by {
                let i = choose|i: int| 0 <= i < w.len() && w[i] == x;
                if last_author(l, p) is Some {
                    assert(w2[i] == x);
                }
            }
        }
        assert forall|k: int|
            #![trigger paths[k]]
            0 <= k < paths.len() && ((exists|i: int| 0 <= i < log.len() && #[trigger] log[i].0 == paths[k])
                || (exists|j: int| 0 <= j < k && #[trigger] paths[j] == paths[k])) implies exists|a: Seq<char>|
                #![trigger overwrite_text(paths[k], a, expert)]
                w2.contains(overwrite_text(paths[k], a, expert)) && (log + paths.take(k).map_values(f)).contains(
                    (paths[k], a),
                ) by {
            if k < n {
                assert(init[k] == paths[k]);
                assert(init.take(k) =~= paths.take(k));
                if exists|j: int| 0 <= j < k && #[trigger] paths[j] == paths[k] {
                    let j = choose|j: int| 0 <= j < k && #[trigger] paths[j] == paths[k];
                    assert(init[j] == paths[j]);
                }
                let a = choose|a: Seq<char>|
                    #![trigger overwrite_text(init[k], a, expert)]
                    w.contains(overwrite_text(init[k], a, expert)) && (log + init.take(k).map_values(f)).contains(
                        (init[k], a),
                    );
                assert(w2.contains(overwrite_text(paths[k], a, expert)));
            } else {
                assert(k == n);
                assert(paths[k] == p);
                if exists|i: int| 0 <= i < log.len() && #[trigger] log[i].0 == paths[k] {
                    let i = choose|i: int| 0 <= i < log.len() && #[trigger] log[i].0 == paths[k];
                    assert(l[i] == log[i]);
                    assert(l[i].0 == p);
                    assert(exists|i: int| 0 <= i < l.len() && #[trigger] l[i].0 == p);
                } else {
                    let j = choose|j: int| 0 <= j < k && #[trigger] paths[j] == paths[k];
                    let idx = log.len() + j;
                    assert(init.map_values(f)[j] == (init[j], expert));
                    assert(l[idx] == (init[j], expert));
                    assert(init[j] == paths[j]);
                    assert(l[idx].0 == p);
                    assert(exists|i: int| 0 <= i < l.len() && #[trigger] l[i].0 == p);
                }
                let a = last_author(l, p).unwrap();
                assert(w2 == w.push(overwrite_text(p, a, expert)));
                assert(w2[w.len() as int] == overwrite_text(p, a, expert));
                assert(w2.contains(overwrite_text(paths[k], a, expert)));
                assert(l =~= log + paths.take(k).map_values(f));
            }
        }
        if (forall|i: int, k: int| 0 <= i < log.len() && 0 <= k < paths.len() ==> #[trigger] log[i].0 != #[trigger] paths[k])
            && (forall|j: int, k: int| 0 <= j < k < paths.len() ==> #[trigger] paths[j] != #[trigger] paths[k]) {
            assert forall|i: int, k: int| 0 <= i < log.len() && 0 <= k < init.len() implies #[trigger] log[i].0 != #[trigger] init[k] by {
                assert(init[k] == paths[k]);
            }
            assert forall|j: int, k: int| 0 <= j < k < init.len() implies #[trigger] init[j] != #[trigger] init[k] by {
                assert(init[j] == paths[j]);
                assert(init[k] == paths[k]);
            }
            assert forall|i: int| 0 <= i < l.len() implies #[trigger] l[i].0 != p by {
                if i < log.len() {
                    assert(log[i].0 != paths[n]);
                } else {
                    let j = i - log.len();
                    assert(l[i] == (init[j], expert));
                    assert(paths[j] != paths[n]);
                }
            }
        }
    }
}

/// Who wrote each path during one round of edits. Experts share one
/// workspace, so when two write the same path the later one wins and the
/// build sees that blend; the log at least makes the collision visible.
#[derive(Debug)]
pub struct RoundEditLog {
    /// Every write so far: path, then author.
    pub writes: Vec<(String, String)>,
}

/// The views of a write log.
pub open spec fn log_view(v: Seq<(String, String)>) -> Seq<(Seq<char>, Seq<char>)> {
    v.map_values(|p: (String, String)| (p.0@, p.1@))
}

impl RoundEditLog {
    /// An empty log.
    pub fn new() -> (res: Self)
        ensures
            res.writes@.len() == 0,
    {
        RoundEditLog { writes: Vec::new() }
    }

    fn author_of(&self, path: &String) -> (res: Option<String>)
        ensures
            match res {
                Some(a) => last_author(log_view(self.writes@), path@) == Some(a@),
                None => last_author(log_view(self.writes@), path@) is None,
            },
    {
        let ghost lv = log_view(self.writes@);
        let mut k = self.writes.len();
        assert(lv.subrange(0, k as int) =~= lv);
        while k > 0
            invariant
                k <= self.writes.len(),
                lv == log_view(self.writes@),
                last_author(lv, path@) == last_author(lv.subrange(0, k as int), path@),
            decreases k,
        {
            assert(lv.subrange(0, k as int).drop_last() =~= lv.subrange(0, k - 1));
            if self.writes[k - 1].0 == *path {
                return Some(self.writes[k - 1].1.clone());
            }
            k = k - 1;
        }
        None
    }

    /// Records that `expert` wrote `written` (the paths actually written, in
    /// order) and returns a warning for each path that an earlier write of
    /// this round had already produced.
    pub fn record_writes(&mut self, expert: &str, written: &Vec<String>) -> (warnings: Vec<String>)
        ensures
            ({
                let (l, w) = record_spec(log_view(old(self).writes@), expert@, strings_view(written@));
                log_view(final(self).writes@) == l && strings_view(warnings@) == w
            }),
    {
        let mut warnings: Vec<String> = Vec::new();
        let ghost start = log_view(self.writes@);
        let mut k: usize = 0;
        assert(strings_view(written@).subrange(0, 0) =~= Seq::<Seq<char>>::empty());
        while k < written.len()
            invariant
                k <= written.len(),
                ({
                    let (l, w) = record_spec(start, expert@, strings_view(written@).subrange(0, k as int));
                    log_view(self.writes@) == l && strings_view(warnings@) == w
                }),
            decreases written.len() - k,
        {
            let path = &written[k];
            let ghost sub = strings_view(written@).subrange(0, k + 1);
            assert(sub.drop_last() =~= strings_view(written@).subrange(0, k as int));
            assert(sub.last() == path@);
            let ghost prev_w = warnings@;
            let ghost prev_l = self.writes@;
            match self.author_of(path) {
                Some(a) => {
                    let mut m = String::from_str("'");
                    m.append(path.as_str());
                    m.append("' was written by [");
                    m.append(a.as_str());
                    m.append("] and then overwritten by [");
                    m.append(expert);
                    m.append("]; only the later version was built.");
                    warnings.push(m);
                    assert(strings_view(warnings@) =~= strings_view(prev_w).push(
                        overwrite_text(path@, a@, expert@),
                    ));
                },
                None => {},
            }
            self.writes.push((path.clone(), String::from_str(expert)));
            assert(log_view(self.writes@) =~= log_view(prev_l).push((path@, expert@)));
            k = k + 1;
        }
        assert(strings_view(written@).subrange(0, written.len() as int) =~= strings_view(written@));
        warnings
    }
}

// ── A coding run ──

/// What coding mode adds to every expert's system prompt.
pub open spec fn coding_instructions() -> Seq<char> {
    "\n\nIMPORTANT: You are in Coding Agent Mode. You have read access to the local workspace files. If you propose creating or modifying files, you MUST write them out fully using the following XML format:\n<write_file path=\"relative/path/to/file\">\n// file contents here\n</write_file>\nMake sure to write valid code that will compile."@
}

/// An expert's system prompt in coding mode.
pub fn coding_system_prompt(system_prompt: &str) -> (res: String)
    ensures
        res@ == system_prompt@ + coding_instructions(),
{
    let mut s = String::from_str(system_prompt);
    s.append(
        "\n\nIMPORTANT: You are in Coding Agent Mode. You have read access to the local workspace files. If you propose creating or modifying files, you MUST write them out fully using the following XML format:\n<write_file path=\"relative/path/to/file\">\n// file contents here\n</write_file>\nMake sure to write valid code that will compile.",
    );
    s
}

/// The id under which an expert's repair answer is reported.
pub fn critique_label(expert_id: &str) -> (res: String)
    ensures
        res@ == expert_id@ + "_critique"@,
{
    let mut s = String::from_str(expert_id);
    s.append("_critique");
    s
}

/// A build runs only when both the command and the workspace are given.
pub open spec fn should_build_spec(workspace: Seq<char>, command: Seq<char>) -> bool {
    trim_spec(command).len() > 0 && trim_spec(workspace).len() > 0
}

/// Whether to run the build command after applying edits.
pub fn should_build(workspace_path: &str, build_command: &str) -> (res: bool)
    ensures
        res == should_build_spec(workspace_path@, build_command@),
{
    let c = trim(build_command);
    let w = trim(workspace_path);
    let cc = chars_of(c.as_str());
    let wc = chars_of(w.as_str());
    cc.len() > 0 && wc.len() > 0
}

/// The other experts' drafts as shown to `me` in the repair round.
pub open spec fn other_drafts_items(drafts: Statements, me: Seq<char>) -> Seq<Seq<char>>
    decreases drafts.len(),
{
    if drafts.len() == 0 {
        Seq::empty()
    } else {
        let rest = other_drafts_items(drafts.drop_last(), me);
        if drafts.last().0 == me {
            rest
        } else {
            rest.push(expert_item(drafts.last().0, drafts.last().1))
        }
    }
}

/// The prompt of the repair round for `me`: the query, the other experts'
/// drafts, and the failing build's log.
pub open spec fn repair_prompt_text(prompt: Seq<char>, drafts: Statements, me: Seq<char>, log: Seq<char>) -> Seq<char> {
    "You are an expert panelist in coding agent mode. Here is the original user query: \""@ + prompt
        + "\"\n\nOther panel experts have generated the following initial drafts:\n\n"@
        + join_spec(other_drafts_items(drafts, me), "\n\n"@)
        + "\n\nIMPORTANT: The initial edits failed the build/test. Here is the build/compiler log output:\n"@
        + log
        + "\n\nPlease analyze these compiler or test errors, critique the other proposals, and output your updated and fully corrected code files using `<write_file path=\"relative/path/to/file\">` tags."@
}

/// The drafts shown to `me` in the repair round are exactly the other
/// experts' drafts, in order, each as `- Expert [id]:` and its text.
pub proof fn lemma_repair_shows_the_other_drafts(drafts: Statements, me: Seq<char>)
    ensures
        other_drafts_items(drafts, me) == drafts.filter(|p: (Seq<char>, Seq<char>)| p.0 != me).map_values(
            |p: (Seq<char>, Seq<char>)| "- Expert ["@ + p.0 + "]:\n"@ + p.1,
        ),
    decreases drafts.len(),
{
    reveal(Seq::filter);
    let pred = |p: (Seq<char>, Seq<char>)| p.0 != me;
    let f = |p: (Seq<char>, Seq<char>)| "- Expert ["@ + p.0 + "]:\n"@ + p.1;
    if drafts.len() == 0 {
        assert(drafts.filter(pred) =~= Seq::<(Seq<char>, Seq<char>)>::empty());
        assert(drafts.filter(pred).map_values(f) =~= Seq::<Seq<char>>::empty());
    } else {
        lemma_repair_shows_the_other_drafts(drafts.drop_last(), me);
        let sub = drafts.drop_last().filter(pred);
        if pred(drafts.last()) {
            assert(drafts.filter(pred) == sub.push(drafts.last()));
            assert(sub.push(drafts.last()).map_values(f) =~= sub.map_values(f).push(f(drafts.last())));
        } else {
            assert(drafts.filter(pred) == sub);
        }
    }
}

proof fn lemma_other_draft_item(drafts: Statements, me: Seq<char>, i: int) -> (k: int)
    requires
        0 <= i < drafts.len(),
        drafts[i].0 != me,
    ensures
        0 <= k < other_drafts_items(drafts, me).len(),
        other_drafts_items(drafts, me)[k] == expert_item(drafts[i].0, drafts[i].1),
    decreases drafts.len(),
{
    let rest = other_drafts_items(drafts.drop_last(), me);
    if i == drafts.len() - 1 {
        rest.len() as int
    } else {
        assert(drafts.drop_last()[i] == drafts[i]);
        lemma_other_draft_item(drafts.drop_last(), me, i)
    }
}

/// The repair prompt shows the expert every other expert's draft and the
/// failing build's log.
pub proof fn lemma_repair_prompt_shows_drafts_and_log(
    prompt: Seq<char>,
    drafts: Statements,
    me: Seq<char>,
    log: Seq<char>,
)
    ensures
        contains_spec(repair_prompt_text(prompt, drafts, me, log), log),
        forall|i: int|
            0 <= i < drafts.len() && drafts[i].0 != me ==> contains_spec(
                repair_prompt_text(prompt, drafts, me, log),
                expert_item(#[trigger] drafts[i].0, drafts[i].1),
            ),
{
    let p = repair_prompt_text(prompt, drafts, me, log);
    let items = other_drafts_items(drafts, me);
    let others = join_spec(items, "\n\n"@);
    let head = "You are an expert panelist in coding agent mode. Here is the original user query: \""@
        + prompt + "\"\n\nOther panel experts have generated the following initial drafts:\n\n"@;
    let mid = "\n\nIMPORTANT: The initial edits failed the build/test. Here is the build/compiler log output:\n"@;
    let tail = "\n\nPlease analyze these compiler or test errors, critique the other proposals, and output your updated and fully corrected code files using `<write_file path=\"relative/path/to/file\">` tags."@;
    assert(p =~= head + others + (mid + log + tail));
    assert(p =~= (head + others + mid) + log + tail);
    lemma_contains_piece(head + others + mid, log, tail);
    assert forall|i: int| 0 <= i < drafts.len() && drafts[i].0 != me implies contains_spec(
        p,
        expert_item(#[trigger] drafts[i].0, drafts[i].1),
    ) by {
        let k = lemma_other_draft_item(drafts, me, i);
        lemma_join_contains(items, "\n\n"@, k);
        lemma_contains_piece(head, others, mid + log + tail);
        lemma_contains_trans(p, others, items[k]);
    }
}

/// The repair-round prompt for the expert `me`.
pub fn repair_prompt(prompt: &str, drafts: &Vec<(String, String)>, me: &str, build_log: &str) -> (res: String)
    ensures
        res@ == repair_prompt_text(prompt@, statements_view(drafts@), me@, build_log@),
{
    let ghost sv = statements_view(drafts@);
    let me_s = String::from_str(me);
    let mut others = String::new();
    let mut first = true;
    let mut k: usize = 0;
    assert(sv.subrange(0, 0) =~= Seq::<(Seq<char>, Seq<char>)>::empty());
    while k < drafts.len()
        invariant
            k <= drafts.len(),
            sv == statements_view(drafts@),
            me_s@ == me@,
            others@ == join_spec(other_drafts_items(sv.subrange(0, k as int), me@), "\n\n"@),
            first == (other_drafts_items(sv.subrange(0, k as int), me@).len() == 0),
        decreases drafts.len() - k,
    {
        assert(sv.subrange(0, k + 1).drop_last() =~= sv.subrange(0, k as int));
        if !(drafts[k].0 == me_s) {
            let mut item = String::from_str("- Expert [");
            item.append(drafts[k].0.as_str());
            item.append("]:\n");
            item.append(drafts[k].1.as_str());
            let ghost items = other_drafts_items(sv.subrange(0, k as int), me@);
            assert(items.push(item@).drop_last() =~= items);
            if !first {
                others.append("\n\n");
            }
            others.append(item.as_str());
            first = false;
        }
        k = k + 1;
    }
    assert(sv.subrange(0, drafts.len() as int) =~= sv);
    let mut s = String::from_str(
        "You are an expert panelist in coding agent mode. Here is the original user query: \"",
    );
    s.append(prompt);
    s.append("\"\n\nOther panel experts have generated the following initial drafts:\n\n");
    s.append(others.as_str());
    s.append(
        "\n\nIMPORTANT: The initial edits failed the build/test. Here is the build/compiler log output:\n",
    );
    s.append(build_log);
    s.append(
        "\n\nPlease analyze these compiler or test errors, critique the other proposals, and output your updated and fully corrected code files using `<write_file path=\"relative/path/to/file\">` tags.",
    );
    s
}

/// The result of a coding run: whether the last build passed, then the
/// drafts that were applied last.
pub open spec fn coding_report_text(success: bool, drafts: Statements) -> Seq<char> {
    "Build success: "@ + (if success {
        "true"@
    } else {
        "false"@
    }) + "\n\n"@ + transcript_text(drafts)
}

/// The result of a coding run.
pub fn coding_report(success: bool, drafts: &Vec<(String, String)>) -> (res: String)
    ensures
        res@ == coding_report_text(success, statements_view(drafts@)),
{
    let mut s = String::from_str("Build success: ");
    if success {
        s.append("true");
    } else {
        s.append("false");
    }
    s.append("\n\n");
    let t = transcript(drafts);
    s.append(t.as_str());
    s
}

/// The warning given when a run is cancelled before its edits are applied.
pub open spec fn cancel_warning_text() -> Seq<char> {
    "Cancelled before applying edits — the workspace was not modified."@
}

/// The result of a run cancelled before its edits are applied.
pub open spec fn cancel_result_text() -> Seq<char> {
    "Cancelled before any file was written."@
}

/// Where a coding run stands.
#[derive(Debug, Clone, Copy, PartialEq, Eq, Structural)]
pub enum CodingPhase {
    /// The experts are writing their drafts.
    Drafting,
    /// The drafts are being applied and built.
    FirstBuild,
    /// The experts are repairing a failed build.
    Repairing,
    /// The repaired drafts are being applied and built.
    SecondBuild,
    /// The run is over.
    Done,
}

/// The position of a phase in the order a run goes through them.
pub open spec fn phase_rank(p: CodingPhase) -> nat {
    match p {
        CodingPhase::Drafting => 0,
        CodingPhase::FirstBuild => 1,
        CodingPhase::Repairing => 2,
        CodingPhase::SecondBuild => 3,
        CodingPhase::Done => 4,
    }
}

/// A step of a run from phase `p` to phase `q` moves it forward; only a
/// finished run stays where it is.
pub open spec fn advances(p: CodingPhase, q: CodingPhase) -> bool {
    phase_rank(p) < phase_rank(q) || (p == CodingPhase::Done && q == CodingPhase::Done)
}

/// A coding run asks for at most one repair round: along any sequence of
/// phases in which every step moves the run forward, as every step of
/// `CodingFlow` does, the repair phase occurs at most once.
pub proof fn lemma_single_repair_round(phases: Seq<CodingPhase>)
    requires
        forall|i: int| 0 <= i < phases.len() - 1 ==> advances(#[trigger] phases[i], phases[i + 1]),
    ensures
        forall|i: int, j: int|
            0 <= i < j < phases.len() && #[trigger] phases[i] == CodingPhase::Repairing ==> #[trigger] phases[j]
                != CodingPhase::Repairing,
{
    assert forall|i: int, j: int|
        0 <= i < j < phases.len() && #[trigger] phases[i] == CodingPhase::Repairing implies #[trigger] phases[j]
            != CodingPhase::Repairing by {
        lemma_rank_grows(phases, i, j);
    }
}

proof fn lemma_rank_grows(phases: Seq<CodingPhase>, i: int, j: int)
    requires
        forall|k: int| 0 <= k < phases.len() - 1 ==> advances(#[trigger] phases[k], phases[k + 1]),
        0 <= i < j < phases.len(),
        phases[i] != CodingPhase::Done,
    ensures
        phase_rank(phases[i]) < phase_rank(phases[j]),
    decreases j - i,
{
    assert(advances(phases[i], phases[i + 1]));
    if j > i + 1 {
        if phases[i + 1] == CodingPhase::Done {
            lemma_done_stays(phases, i + 1, j);
        } else {
            lemma_rank_grows(phases, i + 1, j);
        }
    }
}

proof fn lemma_done_stays(phases: Seq<CodingPhase>, i: int, j: int)
    requires
        forall|k: int| 0 <= k < phases.len() - 1 ==> advances(#[trigger] phases[k], phases[k + 1]),
        0 <= i <= j < phases.len(),
        phases[i] == CodingPhase::Done,
    ensures
        phases[j] == CodingPhase::Done,
    decreases j - i,
{
    if j > i {
        assert(advances(phases[i], phases[i + 1]));
        lemma_done_stays(phases, i + 1, j);
    }
}

/// What the host does next in a coding run.
#[derive(Debug)]
pub enum CodingStep {
    /// Write these drafts' edits into the workspace, in order, then run the
    /// build command if `run_build`.
    ApplyEdits { drafts: Vec<(String, String)>, run_build: bool },
    /// Ask every expert, in council order, to repair the build.
    RunRepair { prompts: Vec<String> },
    /// The run is over: report the warning, if any, and return the result.
    Finished { warning: Option<String>, result: String },
}

/// A coding run in progress. The host first asks every expert for a draft
/// with the query as prompt and `coding_system_prompt` as system prompt.
#[derive(Debug)]
pub struct CodingFlow {
    pub prompt: String,
    pub expert_ids: Vec<String>,
    /// Whether a failed build gets one repair round.
    pub repair_enabled: bool,
    /// Whether edits are followed by a build.
    pub run_build: bool,
    pub phase: CodingPhase,
    /// The drafts applied last.
    pub drafts: Vec<(String, String)>,
    /// Whether the last build passed; true until a build fails.
    pub build_success: bool,
}

impl CodingFlow {
    /// A run about to ask for drafts.
    pub fn start(prompt: &str, workspace_path: &str, build_command: &str, council: &Council) -> (res:
        CodingFlow)
        ensures
            res.prompt@ == prompt@,
            ids_view(res.expert_ids@) == crate::council::expert_ids_view(*council),
            res.repair_enabled == (council.critique_rounds > 0),
            res.run_build == should_build_spec(workspace_path@, build_command@),
            res.phase == CodingPhase::Drafting,
            res.drafts@.len() == 0,
            res.build_success,
    {
        let mut ids: Vec<String> = Vec::new();
        let mut k: usize = 0;
        while k < council.experts.len()
            invariant
                k <= council.experts.len(),
                ids_view(ids@) == crate::council::expert_ids_view(*council).subrange(0, k as int),
            decreases council.experts.len() - k,
        {
            let ghost prev = ids@;
            let id = council.experts[k].id.clone();
            assert(id@ == council.experts@[k as int].id@);
            ids.push(id);
            assert(ids_view(ids@) =~= ids_view(prev).push(council.experts@[k as int].id@));
            assert(crate::council::expert_ids_view(*council).subrange(0, k + 1)
                =~= crate::council::expert_ids_view(*council).subrange(0, k as int).push(
                council.experts@[k as int].id@,
            ));
            k = k + 1;
        }
        assert(crate::council::expert_ids_view(*council).subrange(0, k as int)
            =~= crate::council::expert_ids_view(*council));
        CodingFlow {
            prompt: String::from_str(prompt),
            expert_ids: ids,
            repair_enabled: council.critique_rounds > 0,
            run_build: should_build(workspace_path, build_command),
            phase: CodingPhase::Drafting,
            drafts: Vec::new(),
            build_success: true,
        }
    }

    fn finish(&mut self) -> (res: CodingStep)
        ensures
            advances(old(self).phase, final(self).phase),
            final(self).phase == CodingPhase::Done,
            final(self).prompt == old(self).prompt,
            final(self).expert_ids == old(self).expert_ids,
            final(self).repair_enabled == old(self).repair_enabled,
            final(self).run_build == old(self).run_build,
            final(self).build_success == old(self).build_success,
            statements_view(final(self).drafts@) == statements_view(old(self).drafts@),
            res matches CodingStep::Finished { warning, result } && warning is None && result@
                == coding_report_text(old(self).build_success, statements_view(old(self).drafts@)),
    {
        self.phase = CodingPhase::Done;
        CodingStep::Finished { warning: None, result: coding_report(self.build_success, &self.drafts) }
    }

    /// Takes the drafts of the experts that answered, in council order. A
    /// cancel at this point ends the run before anything is written;
    /// otherwise the drafts are applied and built.
    pub fn drafts_finished(&mut self, drafts: Vec<(String, String)>, cancelled: bool) -> (res: CodingStep)
        ensures
            advances(old(self).phase, final(self).phase),
            final(self).prompt@ == old(self).prompt@,
            ids_view(final(self).expert_ids@) == ids_view(old(self).expert_ids@),
            final(self).repair_enabled == old(self).repair_enabled,
            final(self).run_build == old(self).run_build,
            final(self).build_success == old(self).build_success,
            if old(self).phase != CodingPhase::Drafting {
                &&& final(self).phase == CodingPhase::Done
                &&& statements_view(final(self).drafts@) == statements_view(old(self).drafts@)
                &&& res matches CodingStep::Finished { warning, result } && warning is None
                    && result@ == coding_report_text(
                    old(self).build_success,
                    statements_view(old(self).drafts@),
                )
            } else if cancelled {
                &&& final(self).phase == CodingPhase::Done
                &&& statements_view(final(self).drafts@) == statements_view(old(self).drafts@)
                &&& res matches CodingStep::Finished { warning, result } && (warning matches Some(w)
                    && w@ == cancel_warning_text()) && result@ == cancel_result_text()
            } else {
                &&& final(self).phase == CodingPhase::FirstBuild
                &&& statements_view(final(self).drafts@) == statements_view(drafts@)
                &&& res matches CodingStep::ApplyEdits { drafts: d, run_build }
                    && statements_view(d@) == statements_view(drafts@) && run_build
                    == old(self).run_build
            },
    {
        if self.phase != CodingPhase::Drafting {
            return self.finish();
        }
        if cancelled {
            self.phase = CodingPhase::Done;
            return CodingStep::Finished {
                warning: Some(
                    String::from_str(
                        "Cancelled before applying edits — the workspace was not modified.",
                    ),
                ),
                result: String::from_str("Cancelled before any file was written."),
            };
        }
        let applied = copy_statements(&drafts);
        self.drafts = drafts;
        self.phase = CodingPhase::FirstBuild;
        CodingStep::ApplyEdits { drafts: applied, run_build: self.run_build }
    }

    /// Takes the outcome of applying edits: `None` when no build ran, else
    /// whether the build passed and its log. A failed first build gets a
    /// repair round when the council allows one and no cancel came;
    /// otherwise the run ends with the build's outcome.
    pub fn edits_applied(&mut self, build: Option<(bool, String)>, cancelled: bool) -> (res: CodingStep)
        ensures
            advances(old(self).phase, final(self).phase),
            final(self).prompt@ == old(self).prompt@,
            ids_view(final(self).expert_ids@) == ids_view(old(self).expert_ids@),
            final(self).repair_enabled == old(self).repair_enabled,
            final(self).run_build == old(self).run_build,
            statements_view(final(self).drafts@) == statements_view(old(self).drafts@),
            ({
                let success = match build {
                    Some(b) => b.0,
                    None => old(self).build_success,
                };
                let log: Seq<char> = match build {
                    Some(b) => b.1@,
                    None => Seq::empty(),
                };
                if old(self).phase != CodingPhase::FirstBuild && old(self).phase != CodingPhase::SecondBuild {
                    &&& final(self).phase == CodingPhase::Done
                    &&& final(self).build_success == old(self).build_success
                    &&& res matches CodingStep::Finished { warning, result } && warning is None
                        && result@ == coding_report_text(
                        old(self).build_success,
                        statements_view(old(self).drafts@),
                    )
                } else if old(self).phase == CodingPhase::FirstBuild && !success
                    && old(self).repair_enabled && !cancelled {
                    &&& final(self).phase == CodingPhase::Repairing
                    &&& final(self).build_success == success
                    &&& res matches CodingStep::RunRepair { prompts }
                    &&& prompts@.len() == old(self).expert_ids@.len()
                    &&& forall|i: int|
                        0 <= i < prompts@.len() ==> #[trigger] prompts@[i]@ == repair_prompt_text(
                            old(self).prompt@,
                            statements_view(old(self).drafts@),
                            old(self).expert_ids@[i]@,
                            log,
                        )
                } else {
                    &&& final(self).phase == CodingPhase::Done
                    &&& final(self).build_success == success
                    &&& res matches CodingStep::Finished { warning, result } && warning is None
                        && result@ == coding_report_text(success, statements_view(old(self).drafts@))
                }
            }),
    {
        if self.phase != CodingPhase::FirstBuild && self.phase != CodingPhase::SecondBuild {
            return self.finish();
        }
        let (success, log) = match build {
            Some((b, l)) => (b, l),
            None => (self.build_success, String::new()),
        };
        self.build_success = success;
        if self.phase == CodingPhase::FirstBuild && !success && self.repair_enabled && !cancelled {
            self.phase = CodingPhase::Repairing;
            let mut prompts: Vec<String> = Vec::new();
            let mut k: usize = 0;
            while k < self.expert_ids.len()
                invariant
                    k <= self.expert_ids.len(),
                    prompts@.len() == k,
                    forall|i: int|
                        0 <= i < k ==> #[trigger] prompts@[i]@ == repair_prompt_text(
                            self.prompt@,
                            statements_view(self.drafts@),
                            self.expert_ids@[i]@,
                            log@,
                        ),
                decreases self.expert_ids.len() - k,
            {
                let p = repair_prompt(
                    self.prompt.as_str(),
                    &self.drafts,
                    self.expert_ids[k].as_str(),
                    log.as_str(),
                );
                prompts.push(p);
                k = k + 1;
            }
            return CodingStep::RunRepair { prompts };
        }
        self.finish()
    }

    /// Takes the repaired drafts of the experts that answered, in council
    /// order. With at least one and no cancel, they replace the first drafts
    /// and are applied and built; otherwise the run ends with the failed
    /// build's outcome.
    pub fn repair_finished(&mut self, revised: Vec<(String, String)>, cancelled: bool) -> (res: CodingStep)
        ensures
            advances(old(self).phase, final(self).phase),
            final(self).prompt@ == old(self).prompt@,
            ids_view(final(self).expert_ids@) == ids_view(old(self).expert_ids@),
            final(self).repair_enabled == old(self).repair_enabled,
            final(self).run_build == old(self).run_build,
            final(self).build_success == old(self).build_success,
            if old(self).phase == CodingPhase::Repairing && revised@.len() > 0 && !cancelled {
                &&& final(self).phase == CodingPhase::SecondBuild
                &&& statements_view(final(self).drafts@) == statements_view(revised@)
                &&& res matches CodingStep::ApplyEdits { drafts: d, run_build }
                    && statements_view(d@) == statements_view(revised@) && run_build
                    == old(self).run_build
            } else {
                &&& final(self).phase == CodingPhase::Done
                &&& statements_view(final(self).drafts@) == statements_view(old(self).drafts@)
                &&& res matches CodingStep::Finished { warning, result } && warning is None
                    && result@ == coding_report_text(
                    old(self).build_success,
                    statements_view(old(self).drafts@),
                )
            },
    {
        if self.phase == CodingPhase::Repairing && revised.len() > 0 && !cancelled {
            let applied = copy_statements(&revised);
            self.drafts = revised;
            self.phase = CodingPhase::SecondBuild;
            return CodingStep::ApplyEdits { drafts: applied, run_build: self.run_build };
        }
        self.finish()
    }
}

/// A copy of a list of statements.
fn copy_statements(v: &Vec<(String, String)>) -> (res: Vec<(String, String)>)
    ensures
        statements_view(res@) == statements_view(v@),
{
    let mut out: Vec<(String, String)> = Vec::new();
    let mut k: usize = 0;
    while k < v.len()
        invariant
            k <= v.len(),
            statements_view(out@) == statements_view(v@).subrange(0, k as int),
        decreases v.len() - k,
    {
        let ghost prev = out@;
        out.push((v[k].0.clone(), v[k].1.clone()));
        assert(statements_view(out@) =~= statements_view(prev).push((v@[k as int].0@, v@[k as int].1@)));
        assert(statements_view(v@).subrange(0, k + 1) =~= statements_view(v@).subrange(0, k as int).push(
            (v@[k as int].0@, v@[k as int].1@),
        ));
        k = k + 1;
    }
    assert(statements_view(v@).subrange(0, k as int) =~= statements_view(v@));
    out
}

} // verus!
