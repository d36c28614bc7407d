//! Format-preserving POM updates.
//!
//! The writers locate the text to replace with the `quick_xml` token list of the
//! document and splice new values into the original text, so that formatting,
//! comments, whitespace and structure stay as they were.
//!
//! - [`update_properties`] replaces values in the project's `<properties>`;
//! - [`update_inline_versions`] replaces `<version>` elements of dependency and
//!   plugin blocks, matched by their coordinates.

use vstd::prelude::*;
use vstd::utf8::{decode_utf8, encode_utf8, is_char_boundary, valid_utf8};

use crate::error::DepupError;
use crate::props::PropertyMap;
use crate::sorting::{insert_by, insertion_sort, lemma_insertion_sort};
use crate::text::{spec_trim, str_eq, trim};
use crate::xml::{lossy_utf8, read_tokens, token_views, utf8_lossy, xml_tokens, TokenView, XmlToken};

verus! {

broadcast use vstd::utf8::encode_utf8_valid_utf8, vstd::utf8::encode_utf8_decode_utf8;

/// One text replacement: the bytes `start..end` of the document become `new_value`.
#[derive(Debug)]
pub struct Replacement {
    pub start: usize,
    pub end: usize,
    pub new_value: String,
}

/// The view of a [`Replacement`].
pub struct ReplacementView {
    pub start: usize,
    pub end: usize,
    pub new_value: Seq<char>,
}

impl View for Replacement {
    type V = ReplacementView;

    open spec fn view(&self) -> ReplacementView {
        ReplacementView { start: self.start, end: self.end, new_value: self.new_value@ }
    }
}

/// The views of a list of replacements.
pub open spec fn replacement_views(v: Seq<Replacement>) -> Seq<ReplacementView> {
    v.map_values(|r: Replacement| r@)
}

/// `s`, sorted by start, with `r` placed after every element whose start is not
/// greater than its own.
pub open spec fn insert_by_start(s: Seq<ReplacementView>, r: ReplacementView) -> Seq<ReplacementView>
    decreases s.len(),
{
    if s.len() == 0 {
        seq![r]
    } else if s.last().start <= r.start {
        s.push(r)
    } else {
        insert_by_start(s.drop_last(), r).push(s.last())
    }
}

/// The replacements in order of their start position; those with equal starts
/// keep their order (a stable sort).
pub open spec fn sort_by_start(s: Seq<ReplacementView>) -> Seq<ReplacementView>
    decreases s.len(),
{
    if s.len() == 0 {
        s
    } else {
        insert_by_start(sort_by_start(s.drop_last()), s.last())
    }
}

proof fn lemma_insert_by_start(s: Seq<ReplacementView>, r: ReplacementView, j: int)
    requires
        0 <= j <= s.len(),
        forall|k: int| j <= k < s.len() ==> (#[trigger] s[k]).start > r.start,
        j == 0 || s[j - 1].start <= r.start,
    ensures
        insert_by_start(s, r) == s.insert(j, r),
    decreases s.len(),
{
    if s.len() == 0 {
        assert(s.insert(j, r) =~= seq![r]);
    } else if j == s.len() {
        assert(s.insert(j, r) =~= s.push(r));
    } else {
        let t = s.drop_last();
        lemma_insert_by_start(t, r, j);
        assert(s.insert(j, r) =~= t.insert(j, r).push(s.last()));
    }
}

/// Sorts replacements by start position, keeping the order of equal starts.
pub fn sort_replacements(v: Vec<Replacement>) -> (out: Vec<Replacement>)
    ensures
        replacement_views(out@) == sort_by_start(replacement_views(v@)),
{
    let ghost input = replacement_views(v@);
    let mut src = v;
    let mut rev: Vec<Replacement> = Vec::new();
    // Move the input into `rev` back to front so that popping yields it in order.
    while src.len() > 0
        invariant
            replacement_views(src@) + replacement_views(rev@).reverse() == input,
        decreases src@.len(),
    {
        let ghost before_src = src@;
        let ghost before_rev = rev@;
        let x = src.pop().unwrap();
        rev.push(x);
        proof {
            assert(replacement_views(src@) =~= replacement_views(before_src).drop_last());
            assert(replacement_views(rev@) =~= replacement_views(before_rev).push(x@));
            assert(replacement_views(rev@).reverse() =~= seq![x@] + replacement_views(before_rev).reverse());
            assert(replacement_views(src@) + replacement_views(rev@).reverse() =~= replacement_views(before_src) + replacement_views(before_rev).reverse());
        }
    }
    assert(replacement_views(rev@).reverse() =~= input);
    let mut out: Vec<Replacement> = Vec::new();
    let ghost mut done: int = 0;
    assert(replacement_views(out@) =~= sort_by_start(input.subrange(0, 0)));
    while rev.len() > 0
        invariant
            0 <= done <= input.len(),
            replacement_views(rev@).reverse() == input.subrange(done, input.len() as int),
            replacement_views(out@) == sort_by_start(input.subrange(0, done)),
        decreases rev@.len(),
    {
        let ghost before_rev = rev@;
        let x = rev.pop().unwrap();
        proof {
            assert(before_rev[before_rev.len() - 1] == x);
            assert(replacement_views(before_rev)[before_rev.len() - 1] == x@);
            assert(replacement_views(before_rev).reverse()[0] == x@);
            assert(replacement_views(before_rev).reverse().len() == before_rev.len());
            assert(input.subrange(done, input.len() as int)[0] == input[done]);
            assert(input[done] == x@);
            assert(replacement_views(rev@) =~= replacement_views(before_rev).drop_last());
            assert(replacement_views(rev@).reverse() =~= replacement_views(before_rev).reverse().drop_first());
            assert(input.subrange(done, input.len() as int).drop_first() =~= input.subrange(done + 1, input.len() as int));
        }
        let ghost o = replacement_views(out@);
        let mut j: usize = out.len();
        while j > 0 && out[j - 1].start > x.start
            invariant
                j <= out@.len(),
                o == replacement_views(out@),
                forall|k: int| j <= k < o.len() ==> (#[trigger] o[k]).start > x.start,
            decreases j,
        {
            j = j - 1;
        }
        proof {
            lemma_insert_by_start(o, x@, j as int);
            assert(input.subrange(0, done + 1).drop_last() =~= input.subrange(0, done));
        }
        out.insert(j, x);
        assert(replacement_views(out@) =~= o.insert(j as int, x@));
        proof {
            done = done + 1;
        }
    }
    assert(input.subrange(0, input.len() as int) =~= input);
    out
}

/// The document's bytes `b` with the (sorted) replacements `reps[i..]` spliced in,
/// starting after byte `last`; `None` where a replacement starts before the end
/// of the previous one or a position is not a character boundary of `b`.
pub open spec fn splice_from(b: Seq<u8>, reps: Seq<ReplacementView>, i: int, last: int) -> Option<Seq<char>>
    decreases reps.len() - i,
{
    if i < 0 || i >= reps.len() {
        if is_char_boundary(b, last) && 0 <= last <= b.len() {
            Some(decode_utf8(b.subrange(last, b.len() as int)))
        } else {
            None
        }
    } else {
        let r = reps[i];
        if 0 <= last <= r.start && r.start <= b.len() && is_char_boundary(b, last) && is_char_boundary(b, r.start as int) {
            match splice_from(b, reps, i + 1, r.end as int) {
                Some(rest) => Some(decode_utf8(b.subrange(last, r.start as int)) + r.new_value + rest),
                None => None,
            }
        } else {
            None
        }
    }
}

/// The document `xml` with the replacements applied in order of their start.
pub open spec fn spec_apply_replacements(xml: Seq<char>, reps: Seq<ReplacementView>) -> Option<Seq<char>> {
    splice_from(encode_utf8(xml), sort_by_start(reps), 0, 0)
}

proof fn lemma_boundary_in_suffix(b: Seq<u8>, last: int, start: int)
    requires
        valid_utf8(b),
        0 <= last <= start <= b.len(),
        is_char_boundary(b, last),
        is_char_boundary(b, start),
    ensures
        valid_utf8(b.subrange(last, b.len() as int)),
        is_char_boundary(b.subrange(last, b.len() as int), start - last),
{
    let t = b.subrange(last, b.len() as int);
    vstd::utf8::valid_utf8_split(b, last);
    if start < b.len() {
        vstd::utf8::is_char_boundary_iff_not_is_continuation_byte(b, start);
        vstd::utf8::is_char_boundary_iff_not_is_continuation_byte(t, start - last);
    } else {
        vstd::utf8::is_char_boundary_start_end_of_seq(t);
    }
}

/// Applying no replacements gives the document back unchanged.
pub proof fn lemma_no_replacements_keep_text(xml: Seq<char>)
    ensures
        spec_apply_replacements(xml, Seq::<ReplacementView>::empty()) == Some(xml),
{
    let b = encode_utf8(xml);
    assert(sort_by_start(Seq::<ReplacementView>::empty()) =~= Seq::<ReplacementView>::empty());
    vstd::utf8::is_char_boundary_start_end_of_seq(b);
    assert(b.subrange(0, b.len() as int) =~= b);
}

/// A single replacement whose bounds are character boundaries of the document
/// puts its value between the text before its start and the text from its end
/// on; the rest of the document is kept as it was.
pub proof fn lemma_single_replacement(xml: Seq<char>, r: ReplacementView)
    requires
        r.start <= encode_utf8(xml).len(),
        r.end <= encode_utf8(xml).len(),
        is_char_boundary(encode_utf8(xml), r.start as int),
        is_char_boundary(encode_utf8(xml), r.end as int),
    ensures
        spec_apply_replacements(xml, seq![r]) == Some(
            decode_utf8(encode_utf8(xml).subrange(0, r.start as int)) + r.new_value + decode_utf8(
                encode_utf8(xml).subrange(r.end as int, encode_utf8(xml).len() as int),
            ),
        ),
{
    let b = encode_utf8(xml);
    let reps = seq![r];
    assert(sort_by_start(reps) =~= reps) by {
        let e = reps.drop_last();
        assert(e.len() == 0);
        assert(sort_by_start(e) == e);
        assert(reps.last() == r);
        assert(insert_by_start(e, r) =~= reps);
    }
    vstd::utf8::is_char_boundary_start_end_of_seq(b);
    assert(splice_from(b, reps, 1, r.end as int) == Some(decode_utf8(b.subrange(r.end as int, b.len() as int))));
}

/// Replacements compare by their start position.
pub open spec fn start_order() -> spec_fn(ReplacementView, ReplacementView) -> bool {
    |a: ReplacementView, b: ReplacementView| a.start <= b.start
}

proof fn lemma_insert_by_start_by(s: Seq<ReplacementView>, r: ReplacementView)
    ensures
        insert_by_start(s, r) == insert_by(s, r, start_order()),
    decreases s.len(),
{
    if s.len() > 0 {
        lemma_insert_by_start_by(s.drop_last(), r);
    }
}

proof fn lemma_sort_by_start_by(s: Seq<ReplacementView>)
    ensures
        sort_by_start(s) == insertion_sort(s, start_order()),
    decreases s.len(),
{
    if s.len() > 0 {
        lemma_sort_by_start_by(s.drop_last());
        lemma_insert_by_start_by(sort_by_start(s.drop_last()), s.last());
    }
}

/// Replacements are applied in ascending order of their start, and all of them:
/// the sorted list holds the replacements given, each as often as given.
pub proof fn lemma_sorted_replacements_ordered(s: Seq<ReplacementView>)
    ensures
        forall|i: int, j: int| 0 <= i < j < sort_by_start(s).len() ==> (#[trigger] sort_by_start(s)[i]).start <= (#[trigger] sort_by_start(s)[j]).start,
        sort_by_start(s).to_multiset() == s.to_multiset(),
{
    lemma_sort_by_start_by(s);
    lemma_insertion_sort(s, start_order());
    let r = sort_by_start(s);
    assert forall|i: int, j: int| 0 <= i < j < r.len() implies (#[trigger] r[i]).start <= (#[trigger] r[j]).start by {
        assert(start_order()(r[i], r[j]));
    }
}

/// The text of `xml` between two character boundaries.
fn slice_between(xml: &str, lo: usize, hi: usize) -> (s: &str)
    requires
        lo <= hi,
        is_char_boundary(encode_utf8(xml@), lo as int),
        is_char_boundary(encode_utf8(xml@), hi as int),
        hi <= encode_utf8(xml@).len(),
    ensures
        s@ == decode_utf8(encode_utf8(xml@).subrange(lo as int, hi as int)),
{
    let ghost b = encode_utf8(xml@);
    proof {
        lemma_boundary_in_suffix(b, lo as int, hi as int);
    }
    let (_, tail) = xml.split_at(lo);
    assert(encode_utf8(tail@) == b.subrange(lo as int, b.len() as int));
    let (piece, _) = tail.split_at(hi - lo);
    proof {
        assert(encode_utf8(piece@) =~= b.subrange(lo as int, hi as int));
        vstd::utf8::encode_utf8_decode_utf8(piece@);
    }
    piece
}

/// The text of `xml` from a character boundary to its end.
fn slice_from(xml: &str, lo: usize) -> (s: &str)
    requires
        is_char_boundary(encode_utf8(xml@), lo as int),
    ensures
        lo <= encode_utf8(xml@).len(),
        s@ == decode_utf8(encode_utf8(xml@).subrange(lo as int, encode_utf8(xml@).len() as int)),
{
    let ghost b = encode_utf8(xml@);
    proof {
        if lo > b.len() {
            assert(!is_char_boundary(b, lo as int));
        }
    }
    let (_, tail) = xml.split_at(lo);
    proof {
        vstd::utf8::encode_utf8_decode_utf8(tail@);
    }
    tail
}

/// Applies replacements to `xml`, in order of their start position.
///
/// `None` where the replacements do not fit the document: one starts before the
/// previous one ends, or a position is not a character boundary of `xml`.
pub fn apply_replacements(xml: &str, replacements: Vec<Replacement>) -> (r: Option<String>)
    ensures
        match spec_apply_replacements(xml@, replacement_views(replacements@)) {
            Some(t) => r matches Some(s) && s@ == t,
            None => r is None,
        },
{
    let ghost b = encode_utf8(xml@);
    let ghost orig = replacement_views(replacements@);
    let sorted = sort_replacements(replacements);
    let ghost reps = replacement_views(sorted@);
    let mut result = String::new();
    let mut last: usize = 0;
    let mut i: usize = 0;
    while i < sorted.len()
        invariant
            b == encode_utf8(xml@),
            reps == replacement_views(sorted@),
            reps == sort_by_start(orig),
            orig == replacement_views(replacements@),
            i <= sorted@.len(),
            splice_from(b, reps, 0, 0) == (match splice_from(b, reps, i as int, last as int) {
                Some(rest) => Some(result@ + rest),
                None => None::<Seq<char>>,
            }),
        decreases sorted@.len() - i,
    {
        let start = sorted[i].start;
        if !(last <= start && xml.is_char_boundary(last) && xml.is_char_boundary(start)) {
            assert(splice_from(b, reps, i as int, last as int) is None);
            return None;
        }
        proof {
            assert(start <= b.len()) by {
                if start > b.len() {
                    assert(!is_char_boundary(b, start as int));
                }
            }
        }
        let piece = slice_between(xml, last, start);
        let ghost before = result@;
        result.append(piece);
        result.append(sorted[i].new_value.as_str());
        proof {
            assert(reps[i as int].new_value == sorted@[i as int].new_value@);
            match splice_from(b, reps, i + 1, sorted@[i as int].end as int) {
                Some(rest) => {
                    assert(before + (piece@ + reps[i as int].new_value + rest) =~= result@ + rest);
                },
                None => {},
            }
        }
        last = sorted[i].end;
        i = i + 1;
    }
    if !xml.is_char_boundary(last) {
        assert(splice_from(b, reps, i as int, last as int) is None);
        return None;
    }
    let piece = slice_from(xml, last);
    assert(splice_from(b, reps, i as int, last as int) == Some(piece@));
    result.append(piece);
    Some(result)
}

} // verus!

verus! {

// ---------------------------------------------------------------------------
// Tag names
// ---------------------------------------------------------------------------

/// The bytes of `b` after its first `:` at or after `i` (all of `b` where there is none).
pub open spec fn qname_local_from(b: Seq<u8>, i: int) -> Seq<u8>
    decreases b.len() - i,
{
    if i < 0 || i >= b.len() {
        b
    } else if b[i] == 58u8 {
        b.subrange(i + 1, b.len() as int)
    } else {
        qname_local_from(b, i + 1)
    }
}

/// The local name of a raw qualified name (`QName::local_name`, the part after
/// the first `:`), decoded as `String::from_utf8_lossy` does.
pub open spec fn writer_local_name(raw: Seq<u8>) -> Seq<char> {
    lossy_utf8(qname_local_from(raw, 0))
}

/// The local name of a raw qualified name.
pub fn local_name(raw: &Vec<u8>) -> (s: String)
    ensures
        s@ == writer_local_name(raw@),
{
    let n = raw.len();
    let mut i: usize = 0;
    while i < n && raw[i] != 58u8
        invariant
            n == raw@.len(),
            i <= n,
            qname_local_from(raw@, 0) == qname_local_from(raw@, i as int),
        decreases n - i,
    {
        i = i + 1;
    }
    let from: usize = if i < n { i + 1 } else { 0 };
    let mut bytes: Vec<u8> = Vec::new();
    let mut j: usize = from;
    while j < n
        invariant
            n == raw@.len(),
            from <= j <= n,
            bytes@ == raw@.subrange(from as int, j as int),
        decreases n - j,
    {
        bytes.push(raw[j]);
        j = j + 1;
        assert(bytes@ =~= raw@.subrange(from as int, j as int));
    }
    proof {
        if i >= n {
            assert(raw@.subrange(0, n as int) =~= raw@);
        }
    }
    utf8_lossy(bytes.as_slice())
}

/// `path` without its last element (unchanged where it is empty).
pub open spec fn path_pop(path: Seq<Seq<char>>) -> Seq<Seq<char>> {
    if path.len() > 0 {
        path.drop_last()
    } else {
        path
    }
}

fn pop_path(path: &mut Vec<String>)
    ensures
        crate::pom::strings_view(final(path)@) == path_pop(crate::pom::strings_view(old(path)@)),
{
    if path.len() > 0 {
        let ghost before = path@;
        path.pop();
        assert(crate::pom::strings_view(path@) =~= crate::pom::strings_view(before).drop_last());
    }
}

/// The message of a writer failure: the detail, under the POM's name.
pub open spec fn writer_error_message(detail: Seq<char>) -> Seq<char> {
    "Failed to parse "@ + "POM XML"@ + ": "@ + detail
}

/// The error a writer reports: a parse failure of `POM XML` with `message`.
pub fn parse_error(message: &str) -> (e: DepupError)
    ensures
        e.code == crate::error::DepupErrorCode::PomParseFailed,
        e.message@ == writer_error_message(message@),
{
    DepupError::pom_parse_failed("POM XML", message)
}

/// The detail given where the replacements found do not fit the document.
pub open spec fn misfit_detail() -> Seq<char> {
    "replacement positions do not fit the document"@
}

fn misfit_error() -> (e: DepupError)
    ensures
        e.code == crate::error::DepupErrorCode::PomParseFailed,
        e.message@ == writer_error_message(misfit_detail()),
{
    proof {
        reveal_strlit("replacement positions do not fit the document");
    }
    parse_error("replacement positions do not fit the document")
}

} // verus!

verus! {

// ---------------------------------------------------------------------------
// Property values
// ---------------------------------------------------------------------------

/// Where the property scan stands.
pub enum ScanMode {
    /// Outside any property that is being read.
    Normal,
    /// Inside property `name`, which is to get `value`; its text starts at byte
    /// `start`, and `depth` elements are open inside the scan.
    Capture { name: Seq<char>, start: usize, depth: nat, value: Seq<char> },
    /// Inside property `name`, which keeps its value.
    Skip { name: Seq<char>, depth: nat },
}

/// The property scan's state between two tokens.
pub struct PropScan {
    pub path: Seq<Seq<char>>,
    pub mode: ScanMode,
    pub found: Seq<ReplacementView>,
}

/// What one token does to a scan.
pub enum ScanStep<S> {
    Next(S),
    Done(Seq<ReplacementView>),
    Failed(Seq<char>),
}

/// The path is that of a property: `project/properties/<name>`.
pub open spec fn is_property_path(path: Seq<Seq<char>>) -> bool {
    path.len() == 3 && path[0] == "project"@ && path[1] == "properties"@
}

/// The message for a property whose element does not end.
pub open spec fn eof_in_property(name: Seq<char>) -> Seq<char> {
    "Unexpected EOF while reading property "@ + name
}

/// The message for an element being skipped that does not end.
pub open spec fn eof_in_skipped(name: Seq<char>) -> Seq<char> {
    "Unexpected EOF while skipping element '"@ + name + "'"@
}

/// What one token does to the property scan.
///
/// A start tag at `project/properties/<name>` begins reading the property: its
/// text runs to the end tag that closes it, and is replaced where `updates` has
/// a value for `name`. End tags elsewhere close an element, except at depth three
/// under any `properties`, which the scan leaves open.
pub open spec fn prop_scan_step(s: PropScan, t: TokenView, updates: Map<Seq<char>, Seq<char>>) -> ScanStep<PropScan> {
    match s.mode {
        ScanMode::Normal => match t {
            TokenView::Start { name, after } => {
                let local = writer_local_name(name);
                let path = s.path.push(local);
                if is_property_path(path) {
                    if updates.contains_key(local) {
                        ScanStep::Next(PropScan {
                            path,
                            mode: ScanMode::Capture { name: local, start: after, depth: 1, value: updates[local] },
                            found: s.found,
                        })
                    } else {
                        ScanStep::Next(PropScan { path, mode: ScanMode::Skip { name: local, depth: 1 }, found: s.found })
                    }
                } else {
                    ScanStep::Next(PropScan { path, ..s })
                }
            },
            TokenView::End { .. } => if s.path.len() != 3 || s.path[1] != "properties"@ {
                ScanStep::Next(PropScan { path: path_pop(s.path), ..s })
            } else {
                ScanStep::Next(s)
            },
            TokenView::Text { .. } => ScanStep::Next(s),
            TokenView::Eof => ScanStep::Done(s.found),
            TokenView::Error { message } => ScanStep::Failed(crate::pom::xml_parse_error(message)),
        },
        ScanMode::Capture { name, start, depth, value } => match t {
            TokenView::Start { .. } => ScanStep::Next(PropScan {
                mode: ScanMode::Capture { name, start, depth: depth + 1, value },
                ..s
            }),
            TokenView::End { before, .. } => if depth <= 1 {
                ScanStep::Next(PropScan {
                    path: path_pop(s.path),
                    mode: ScanMode::Normal,
                    found: s.found.push(ReplacementView { start, end: before, new_value: value }),
                })
            } else {
                ScanStep::Next(PropScan {
                    mode: ScanMode::Capture { name, start, depth: (depth - 1) as nat, value },
                    ..s
                })
            },
            TokenView::Text { .. } => ScanStep::Next(s),
            TokenView::Eof => ScanStep::Failed(eof_in_property(name)),
            TokenView::Error { message } => ScanStep::Failed(crate::pom::xml_parse_error(message)),
        },
        ScanMode::Skip { name, depth } => match t {
            TokenView::Start { .. } => ScanStep::Next(PropScan {
                mode: ScanMode::Skip { name, depth: depth + 1 },
                ..s
            }),
            TokenView::End { .. } => if depth <= 1 {
                ScanStep::Next(PropScan { path: path_pop(s.path), mode: ScanMode::Normal, found: s.found })
            } else {
                ScanStep::Next(PropScan { mode: ScanMode::Skip { name, depth: (depth - 1) as nat }, ..s })
            },
            TokenView::Text { .. } => ScanStep::Next(s),
            TokenView::Eof => ScanStep::Failed(eof_in_skipped(name)),
            TokenView::Error { message } => ScanStep::Failed(crate::pom::xml_parse_error(message)),
        },
    }
}

/// The property scan over `tokens` from state `s`.
pub open spec fn prop_scan_run(s: PropScan, tokens: Seq<TokenView>, updates: Map<Seq<char>, Seq<char>>) -> Result<
    Seq<ReplacementView>,
    Seq<char>,
>
    decreases tokens.len(),
{
    if tokens.len() == 0 {
        Ok(s.found)
    } else {
        match prop_scan_step(s, tokens[0], updates) {
            ScanStep::Next(s2) => prop_scan_run(s2, tokens.drop_first(), updates),
            ScanStep::Done(f) => Ok(f),
            ScanStep::Failed(m) => Err(m),
        }
    }
}

/// The replacements that set the properties named in `updates`, in document
/// order, or the message of the failure that stops the scan.
pub open spec fn spec_find_property_replacements(tokens: Seq<TokenView>, updates: Map<Seq<char>, Seq<char>>) -> Result<
    Seq<ReplacementView>,
    Seq<char>,
> {
    prop_scan_run(prop_scan_initial(), tokens, updates)
}

/// The property scan's state before the first token.
pub open spec fn prop_scan_initial() -> PropScan {
    PropScan { path: Seq::empty(), mode: ScanMode::Normal, found: Seq::empty() }
}

enum ScanModeExec {
    Normal,
    Capture { name: String, start: usize, depth: usize, value: String },
    Skip { name: String, depth: usize },
}

impl View for ScanModeExec {
    type V = ScanMode;

    closed spec fn view(&self) -> ScanMode {
        match self {
            ScanModeExec::Normal => ScanMode::Normal,
            ScanModeExec::Capture { name, start, depth, value } => ScanMode::Capture {
                name: name@,
                start: *start,
                depth: *depth as nat,
                value: value@,
            },
            ScanModeExec::Skip { name, depth } => ScanMode::Skip { name: name@, depth: *depth as nat },
        }
    }
}

/// The depth a scan mode counts (zero outside a property).
pub open spec fn mode_depth(m: ScanMode) -> nat {
    match m {
        ScanMode::Normal => 0,
        ScanMode::Capture { depth, .. } => depth,
        ScanMode::Skip { depth, .. } => depth,
    }
}

enum StepResult {
    Next,
    Done,
    Failed(String),
}

fn xml_error_detail(message: &String) -> (m: String)
    ensures
        m@ == crate::pom::xml_parse_error(message@),
{
    let mut m = String::from_str("XML parse error: ");
    m.append(message.as_str());
    m
}

fn prop_scan_step_exec(
    path: &mut Vec<String>,
    mode: &mut ScanModeExec,
    found: &mut Vec<Replacement>,
    t: &XmlToken,
    updates: &PropertyMap,
) -> (r: StepResult)
    requires
        mode_depth(old(mode)@) < usize::MAX,
    ensures
        ({
            let s = PropScan {
                path: crate::pom::strings_view(old(path)@),
                mode: old(mode)@,
                found: replacement_views(old(found)@),
            };
            let s2 = PropScan {
                path: crate::pom::strings_view(final(path)@),
                mode: final(mode)@,
                found: replacement_views(final(found)@),
            };
            match prop_scan_step(s, t@, updates@) {
                ScanStep::Next(n) => r is Next && s2 == n,
                ScanStep::Done(f) => r is Done && replacement_views(final(found)@) == f,
                ScanStep::Failed(m) => r matches StepResult::Failed(msg) && msg@ == m,
            }
        }),
        mode_depth(final(mode)@) <= mode_depth(old(mode)@) + 1,
{
    let ghost p0 = crate::pom::strings_view(path@);
    let ghost f0 = replacement_views(found@);
    match mode {
        ScanModeExec::Normal => match t {
            XmlToken::Start { name, after } => {
                let local = local_name(name);
                path.push(local.clone());
                assert(crate::pom::strings_view(path@) =~= p0.push(local@));
                if path.len() == 3 && str_eq(path[0].as_str(), "project") && str_eq(path[1].as_str(), "properties") {
                    match updates.get(local.as_str()) {
                        Some(v) => {
                            *mode = ScanModeExec::Capture { name: local, start: *after, depth: 1, value: v.clone() };
                        },
                        None => {
                            *mode = ScanModeExec::Skip { name: local, depth: 1 };
                        },
                    }
                }
                StepResult::Next
            },
            XmlToken::End { .. } => {
                if path.len() != 3 || !str_eq(path[1].as_str(), "properties") {
                    pop_path(path);
                }
                StepResult::Next
            },
            XmlToken::Text { .. } => StepResult::Next,
            XmlToken::Eof => StepResult::Done,
            XmlToken::Error { message } => StepResult::Failed(xml_error_detail(message)),
        },
        ScanModeExec::Capture { name, start, depth, value } => match t {
            XmlToken::Start { .. } => {
                *depth = *depth + 1;
                StepResult::Next
            },
            XmlToken::End { before, .. } => {
                if *depth <= 1 {
                    found.push(Replacement { start: *start, end: *before, new_value: value.clone() });
                    assert(replacement_views(found@) =~= f0.push(ReplacementView { start: *start, end: *before, new_value: value@ }));
                    pop_path(path);
                    *mode = ScanModeExec::Normal;
                } else {
                    *depth = *depth - 1;
                }
                StepResult::Next
            },
            XmlToken::Text { .. } => StepResult::Next,
            XmlToken::Eof => {
                let mut m = String::from_str("Unexpected EOF while reading property ");
                m.append(name.as_str());
                StepResult::Failed(m)
            },
            XmlToken::Error { message } => StepResult::Failed(xml_error_detail(message)),
        },
        ScanModeExec::Skip { name, depth } => match t {
            XmlToken::Start { .. } => {
                *depth = *depth + 1;
                StepResult::Next
            },
            XmlToken::End { .. } => {
                if *depth <= 1 {
                    pop_path(path);
                    *mode = ScanModeExec::Normal;
                } else {
                    *depth = *depth - 1;
                }
                StepResult::Next
            },
            XmlToken::Text { .. } => StepResult::Next,
            XmlToken::Eof => {
                let mut m = String::from_str("Unexpected EOF while skipping element '");
                m.append(name.as_str());
                m.append("'");
                StepResult::Failed(m)
            },
            XmlToken::Error { message } => StepResult::Failed(xml_error_detail(message)),
        },
    }
}

/// Finds the replacements that set the properties named in `updates`: for each
/// `project/properties/<name>` element with a new value, the text between its
/// start and end tags. Fails on a syntax error or where a property element does
/// not end.
pub fn find_property_replacements(tokens: &Vec<XmlToken>, updates: &PropertyMap) -> (r: Result<
    Vec<Replacement>,
    String,
>)
    ensures
        match spec_find_property_replacements(token_views(tokens@), updates@) {
            Ok(f) => r matches Ok(v) && replacement_views(v@) == f,
            Err(m) => r matches Err(e) && e@ == m,
        },
{
    let ghost views = token_views(tokens@);
    let mut path: Vec<String> = Vec::new();
    let mut mode = ScanModeExec::Normal;
    let mut found: Vec<Replacement> = Vec::new();
    proof {
        let s0 = PropScan { path: Seq::empty(), mode: ScanMode::Normal, found: Seq::empty() };
        assert(crate::pom::strings_view(path@) =~= s0.path);
        assert(replacement_views(found@) =~= s0.found);
        assert(views.skip(0) =~= views);
    }
    let mut i: usize = 0;
    while i < tokens.len()
        invariant
            views == token_views(tokens@),
            i <= tokens@.len(),
            mode_depth(mode@) <= i,
            prop_scan_run(
                PropScan {
                    path: crate::pom::strings_view(path@),
                    mode: mode@,
                    found: replacement_views(found@),
                },
                views.skip(i as int),
                updates@,
            ) == spec_find_property_replacements(views, updates@),
        decreases tokens@.len() - i,
    {
        assert(views.skip(i as int)[0] == tokens@[i as int]@);
        assert(views.skip(i as int).drop_first() =~= views.skip(i as int + 1));
        match prop_scan_step_exec(&mut path, &mut mode, &mut found, &tokens[i], updates) {
            StepResult::Next => {},
            StepResult::Done => {
                return Ok(found);
            },
            StepResult::Failed(m) => {
                return Err(m);
            },
        }
        i = i + 1;
    }
    Ok(found)
}

/// What [`update_properties`] returns for `xml` and `updates`: the document with
/// the new property values, or the detail of the failure.
pub open spec fn spec_update_properties(xml: Seq<char>, updates: Map<Seq<char>, Seq<char>>) -> Result<Seq<char>, Seq<char>> {
    if updates == Map::<Seq<char>, Seq<char>>::empty() {
        Ok(xml)
    } else {
        match spec_find_property_replacements(xml_tokens(xml), updates) {
            Err(m) => Err(m),
            Ok(reps) => match spec_apply_replacements(xml, reps) {
                Some(t) => Ok(t),
                None => Err(misfit_detail()),
            },
        }
    }
}

/// The name of the property element that token `t` opens from state `s`: a
/// start tag, read outside any property, whose path is `project/properties/<name>`.
pub open spec fn opened_property(s: PropScan, t: TokenView) -> Option<Seq<char>> {
    match (s.mode, t) {
        (ScanMode::Normal, TokenView::Start { name, .. }) => {
            let local = writer_local_name(name);
            if is_property_path(s.path.push(local)) {
                Some(local)
            } else {
                None
            }
        },
        _ => None,
    }
}

/// The names of the children of `project/properties` that the property scan
/// reads from state `s`, in document order.
pub open spec fn scanned_properties(s: PropScan, tokens: Seq<TokenView>, updates: Map<Seq<char>, Seq<char>>) -> Seq<
    Seq<char>,
>
    decreases tokens.len(),
{
    if tokens.len() == 0 {
        Seq::empty()
    } else {
        match prop_scan_step(s, tokens[0], updates) {
            ScanStep::Next(s2) => {
                let here = match opened_property(s, tokens[0]) {
                    Some(n) => seq![n],
                    None => Seq::empty(),
                };
                here + scanned_properties(s2, tokens.drop_first(), updates)
            },
            _ => Seq::empty(),
        }
    }
}

proof fn lemma_prop_scan_without_keys(s: PropScan, tokens: Seq<TokenView>, updates: Map<Seq<char>, Seq<char>>)
    requires
        s.found.len() == 0,
        !(s.mode is Capture),
        forall|k: int| 0 <= k < scanned_properties(s, tokens, updates).len()
            ==> !updates.contains_key(#[trigger] scanned_properties(s, tokens, updates)[k]),
    ensures
        prop_scan_run(s, tokens, updates) matches Ok(f) ==> f.len() == 0,
    decreases tokens.len(),
{
    if tokens.len() > 0 {
        let t = tokens[0];
        match prop_scan_step(s, t, updates) {
            ScanStep::Next(s2) => {
                let here = match opened_property(s, t) {
                    Some(n) => seq![n],
                    None => Seq::<Seq<char>>::empty(),
                };
                let rest = scanned_properties(s2, tokens.drop_first(), updates);
                assert(scanned_properties(s, tokens, updates) == here + rest);
                assert forall|k: int| 0 <= k < rest.len() implies !updates.contains_key(#[trigger] rest[k]) by {
                    assert((here + rest)[here.len() + k] == rest[k]);
                }
                if let Some(n) = opened_property(s, t) {
                    assert((here + rest)[0] == n);
                }
                lemma_prop_scan_without_keys(s2, tokens.drop_first(), updates);
            },
            _ => {},
        }
    }
}

/// A document none of whose `project/properties` children is named by an
/// update is returned unchanged, once it reads without error: the scan finds no
/// property to set.
pub proof fn lemma_unmatched_properties_keep_text(xml: Seq<char>, updates: Map<Seq<char>, Seq<char>>)
    requires
        forall|k: int| 0 <= k < scanned_properties(prop_scan_initial(), xml_tokens(xml), updates).len()
            ==> !updates.contains_key(#[trigger] scanned_properties(prop_scan_initial(), xml_tokens(xml), updates)[k]),
        spec_find_property_replacements(xml_tokens(xml), updates) is Ok,
    ensures
        spec_update_properties(xml, updates) == Ok::<Seq<char>, Seq<char>>(xml),
{
    lemma_prop_scan_without_keys(prop_scan_initial(), xml_tokens(xml), updates);
    let reps = spec_find_property_replacements(xml_tokens(xml), updates)->Ok_0;
    assert(reps =~= Seq::<ReplacementView>::empty());
    lemma_no_replacements_keep_text(xml);
}

/// Updates property values in a POM document while preserving its formatting.
///
/// Each `project/properties/<name>` element named in `updates` gets the new
/// value as its whole content; everything else is left as it was. With no
/// updates the document is returned unchanged.
pub fn update_properties(xml: &str, updates: &PropertyMap) -> (r: Result<String, DepupError>)
    ensures
        match spec_update_properties(xml@, updates@) {
            Ok(t) => r matches Ok(s) && s@ == t,
            Err(m) => r matches Err(e) && e.code == crate::error::DepupErrorCode::PomParseFailed
                && e.message@ == writer_error_message(m),
        },
{
    if updates.is_empty() {
        return Ok(String::from_str(xml));
    }
    let tokens = read_tokens(xml);
    match find_property_replacements(&tokens, updates) {
        Err(m) => Err(parse_error(m.as_str())),
        Ok(reps) => match apply_replacements(xml, reps) {
            Some(s) => Ok(s),
            None => Err(misfit_error()),
        },
    }
}

} // verus!

verus! {

// ---------------------------------------------------------------------------
// Inline versions
// ---------------------------------------------------------------------------

/// A new version for the dependency or plugin with the given coordinates.
#[derive(Debug, Clone)]
pub struct InlineVersionUpdate {
    pub group_id: String,
    pub artifact_id: String,
    pub new_version: String,
}

/// The view of an [`InlineVersionUpdate`].
pub struct InlineUpdateView {
    pub group_id: Seq<char>,
    pub artifact_id: Seq<char>,
    pub new_version: Seq<char>,
}

impl View for InlineVersionUpdate {
    type V = InlineUpdateView;

    open spec fn view(&self) -> InlineUpdateView {
        InlineUpdateView {
            group_id: self.group_id@,
            artifact_id: self.artifact_id@,
            new_version: self.new_version@,
        }
    }
}

/// The views of a list of updates.
pub open spec fn update_views(v: Seq<InlineVersionUpdate>) -> Seq<InlineUpdateView> {
    v.map_values(|u: InlineVersionUpdate| u@)
}

/// The new version of the first update for the coordinates `group_id:artifact_id`.
pub open spec fn first_update(updates: Seq<InlineUpdateView>, group_id: Seq<char>, artifact_id: Seq<char>) -> Option<Seq<char>>
    decreases updates.len(),
{
    if updates.len() == 0 {
        None
    } else if updates[0].group_id == group_id && updates[0].artifact_id == artifact_id {
        Some(updates[0].new_version)
    } else {
        first_update(updates.drop_first(), group_id, artifact_id)
    }
}

/// The element opens a dependency or plugin block.
pub open spec fn spec_is_artifact_block(path: Seq<Seq<char>>) -> bool {
    crate::pom::spec_is_dependency_element(path) || crate::pom::spec_is_plugin_element(path)
}

/// The element opens a dependency or plugin block: a `dependency` inside
/// `dependencies` or `dependencyManagement`, or a `plugin` inside `plugins` or
/// `pluginManagement`.
pub fn is_artifact_block(path: &Vec<String>) -> (b: bool)
    ensures
        b == spec_is_artifact_block(crate::pom::strings_view(path@)),
{
    crate::pom::is_dependency_element(path) || crate::pom::is_plugin_element(path)
}

/// The element lies inside an `exclusions` or `configuration` block.
pub open spec fn spec_is_nested_block(path: Seq<Seq<char>>) -> bool {
    crate::pom::path_has(path, "exclusions"@) || crate::pom::path_has(path, "configuration"@)
}

/// The element lies inside an `exclusions` or `configuration` block.
pub fn is_nested_block(path: &Vec<String>) -> (b: bool)
    ensures
        b == spec_is_nested_block(crate::pom::strings_view(path@)),
{
    let mut i: usize = 0;
    while i < path.len()
        invariant
            i <= path@.len(),
            forall|j: int| 0 <= j < i ==> #[trigger] crate::pom::strings_view(path@)[j] != "exclusions"@
                && crate::pom::strings_view(path@)[j] != "configuration"@,
        decreases path@.len() - i,
    {
        if str_eq(path[i].as_str(), "exclusions") || str_eq(path[i].as_str(), "configuration") {
            assert(crate::pom::strings_view(path@)[i as int] == path@[i as int]@);
            return true;
        }
        i = i + 1;
    }
    false
}

/// The name closes a dependency or plugin block.
pub open spec fn spec_is_artifact_element(name: Seq<char>) -> bool {
    name == "dependency"@ || name == "plugin"@
}

/// The name closes a dependency or plugin block.
pub fn is_artifact_element(name: &str) -> (b: bool)
    ensures
        b == spec_is_artifact_element(name@),
{
    str_eq(name, "dependency") || str_eq(name, "plugin")
}

/// The inline scan's state between two tokens.
pub struct InlineScan {
    pub path: Seq<Seq<char>>,
    /// Inside a dependency or plugin block.
    pub in_block: bool,
    pub group_id: Option<Seq<char>>,
    pub artifact_id: Option<Seq<char>>,
    /// The byte positions of the block's `<version>` text.
    pub version_start: Option<usize>,
    pub version_end: Option<usize>,
    /// The direct child element being read, and its text so far.
    pub child: Option<Seq<char>>,
    pub child_text: Seq<char>,
    pub found: Seq<ReplacementView>,
}

/// A start tag with local name `local`, whose text starts at byte `after`.
pub open spec fn inline_start(s: InlineScan, local: Seq<char>, after: usize) -> InlineScan {
    let path = s.path.push(local);
    if !s.in_block {
        if spec_is_artifact_block(path) {
            InlineScan {
                path,
                in_block: true,
                group_id: None,
                artifact_id: None,
                version_start: None,
                version_end: None,
                ..s
            }
        } else {
            InlineScan { path, ..s }
        }
    } else if !spec_is_nested_block(path) {
        InlineScan {
            path,
            child: Some(local),
            child_text: Seq::empty(),
            version_start: if local == "version"@ { Some(after) } else { s.version_start },
            ..s
        }
    } else {
        InlineScan { path, ..s }
    }
}

/// The end of the child element being read stores its value.
pub open spec fn inline_end_child(s: InlineScan, local: Seq<char>, before: usize) -> InlineScan {
    if s.child == Some(local) {
        let value = spec_trim(s.child_text);
        let s1 = if local == "groupId"@ {
            InlineScan { group_id: Some(value), ..s }
        } else if local == "artifactId"@ {
            InlineScan { artifact_id: Some(value), ..s }
        } else if local == "version"@ {
            InlineScan { version_end: Some(before), ..s }
        } else {
            s
        };
        InlineScan { child: None, child_text: Seq::empty(), ..s1 }
    } else {
        s
    }
}

/// The end of a block: where its coordinates and version are known and an
/// update matches them, its version text is to be replaced.
pub open spec fn inline_end_block(s: InlineScan, local: Seq<char>, updates: Seq<InlineUpdateView>) -> InlineScan {
    if s.in_block && spec_is_artifact_element(local) {
        let found = match (s.group_id, s.artifact_id, s.version_start, s.version_end) {
            (Some(g), Some(a), Some(vs), Some(ve)) => match first_update(updates, g, a) {
                Some(v) => s.found.push(ReplacementView { start: vs, end: ve, new_value: v }),
                None => s.found,
            },
            _ => s.found,
        };
        InlineScan {
            in_block: false,
            group_id: None,
            artifact_id: None,
            version_start: None,
            version_end: None,
            found,
            ..s
        }
    } else {
        s
    }
}

/// What one token does to the inline scan.
pub open spec fn inline_step(s: InlineScan, t: TokenView, updates: Seq<InlineUpdateView>) -> ScanStep<InlineScan> {
    match t {
        TokenView::Start { name, after } => ScanStep::Next(inline_start(s, writer_local_name(name), after)),
        TokenView::End { name, before } => {
            let local = writer_local_name(name);
            let s2 = inline_end_block(inline_end_child(s, local, before), local, updates);
            ScanStep::Next(InlineScan { path: path_pop(s2.path), ..s2 })
        },
        TokenView::Text { text } => if s.child is Some {
            ScanStep::Next(InlineScan {
                child_text: s.child_text + match text {
                    Some(t) => t,
                    None => Seq::empty(),
                },
                ..s
            })
        } else {
            ScanStep::Next(s)
        },
        TokenView::Eof => ScanStep::Done(s.found),
        TokenView::Error { message } => ScanStep::Failed(crate::pom::xml_parse_error(message)),
    }
}

/// The inline scan over `tokens` from state `s`.
pub open spec fn inline_run(s: InlineScan, tokens: Seq<TokenView>, updates: Seq<InlineUpdateView>) -> Result<
    Seq<ReplacementView>,
    Seq<char>,
>
    decreases tokens.len(),
{
    if tokens.len() == 0 {
        Ok(s.found)
    } else {
        match inline_step(s, tokens[0], updates) {
            ScanStep::Next(s2) => inline_run(s2, tokens.drop_first(), updates),
            ScanStep::Done(f) => Ok(f),
            ScanStep::Failed(m) => Err(m),
        }
    }
}

/// The state before the first token.
pub open spec fn inline_initial() -> InlineScan {
    InlineScan {
        path: Seq::empty(),
        in_block: false,
        group_id: None,
        artifact_id: None,
        version_start: None,
        version_end: None,
        child: None,
        child_text: Seq::empty(),
        found: Seq::empty(),
    }
}

/// A dependency or plugin block as the inline scan read it when it closed: its
/// group and artifact ids, and the byte span of its own `<version>` text.
pub struct BlockRecord {
    pub group_id: Option<Seq<char>>,
    pub artifact_id: Option<Seq<char>>,
    pub version_start: Option<usize>,
    pub version_end: Option<usize>,
}

/// The block that token `t` closes from state `s`, where it closes a
/// dependency or plugin block.
pub open spec fn closed_block(s: InlineScan, t: TokenView) -> Option<BlockRecord> {
    match t {
        TokenView::End { name, before } => {
            let local = writer_local_name(name);
            let s1 = inline_end_child(s, local, before);
            if s1.in_block && spec_is_artifact_element(local) {
                Some(BlockRecord {
                    group_id: s1.group_id,
                    artifact_id: s1.artifact_id,
                    version_start: s1.version_start,
                    version_end: s1.version_end,
                })
            } else {
                None
            }
        },
        _ => None,
    }
}

/// The dependency and plugin blocks that the inline scan reads from state `s`,
/// in document order.
pub open spec fn inline_blocks(s: InlineScan, tokens: Seq<TokenView>, updates: Seq<InlineUpdateView>) -> Seq<BlockRecord>
    decreases tokens.len(),
{
    if tokens.len() == 0 {
        Seq::empty()
    } else {
        match inline_step(s, tokens[0], updates) {
            ScanStep::Next(s2) => {
                let here = match closed_block(s, tokens[0]) {
                    Some(b) => seq![b],
                    None => Seq::empty(),
                };
                here + inline_blocks(s2, tokens.drop_first(), updates)
            },
            _ => Seq::empty(),
        }
    }
}

/// The replacement a block gets: where its ids and version span were read and
/// an update names its coordinates, its version text becomes the first such
/// update's version.
pub open spec fn block_replacement(b: BlockRecord, updates: Seq<InlineUpdateView>) -> Option<ReplacementView> {
    match (b.group_id, b.artifact_id, b.version_start, b.version_end) {
        (Some(g), Some(a), Some(vs), Some(ve)) => match first_update(updates, g, a) {
            Some(v) => Some(ReplacementView { start: vs, end: ve, new_value: v }),
            None => None,
        },
        _ => None,
    }
}

/// The replacements of the blocks, in order.
pub open spec fn block_replacements(blocks: Seq<BlockRecord>, updates: Seq<InlineUpdateView>) -> Seq<ReplacementView>
    decreases blocks.len(),
{
    if blocks.len() == 0 {
        Seq::empty()
    } else {
        let here = match block_replacement(blocks[0], updates) {
            Some(r) => seq![r],
            None => Seq::empty(),
        };
        here + block_replacements(blocks.drop_first(), updates)
    }
}

proof fn lemma_inline_run_replacements(s: InlineScan, tokens: Seq<TokenView>, updates: Seq<InlineUpdateView>)
    ensures
        inline_run(s, tokens, updates) matches Ok(f) ==> f == s.found + block_replacements(inline_blocks(s, tokens, updates), updates),
    decreases tokens.len(),
{
    if tokens.len() == 0 {
        assert(s.found + Seq::<ReplacementView>::empty() =~= s.found);
    } else {
        let t = tokens[0];
        match inline_step(s, t, updates) {
            ScanStep::Next(s2) => {
                lemma_inline_run_replacements(s2, tokens.drop_first(), updates);
                let here = match closed_block(s, t) {
                    Some(b) => seq![b],
                    None => Seq::<BlockRecord>::empty(),
                };
                let rest = inline_blocks(s2, tokens.drop_first(), updates);
                let all = here + rest;
                assert(inline_blocks(s, tokens, updates) == all);
                match closed_block(s, t) {
                    Some(b) => {
                        assert(all[0] == b);
                        assert(all.drop_first() =~= rest);
                        let r_here = match block_replacement(b, updates) {
                            Some(r) => seq![r],
                            None => Seq::<ReplacementView>::empty(),
                        };
                        assert(s2.found =~= s.found + r_here);
                        assert(block_replacements(all, updates) == r_here + block_replacements(rest, updates));
                        assert(s.found + r_here + block_replacements(rest, updates) =~= s.found + (r_here + block_replacements(rest, updates)));
                    },
                    None => {
                        assert(all =~= rest);
                        assert(s2.found == s.found);
                    },
                }
            },
            ScanStep::Done(f) => {
                assert(s.found + Seq::<ReplacementView>::empty() =~= s.found);
            },
            _ => {},
        }
    }
}

/// What the inline rewrite does to a document that reads without error: the
/// replacements are, in document order, the version spans of the dependency and
/// plugin blocks whose group and artifact ids an update names, each set to the
/// first such update's version; the text is the document with exactly those
/// spliced in, and nothing else changed.
pub proof fn lemma_inline_rewrite(xml: Seq<char>, updates: Seq<InlineUpdateView>)
    requires
        spec_find_inline_replacements(xml_tokens(xml), updates) is Ok,
    ensures
        spec_find_inline_replacements(xml_tokens(xml), updates)->Ok_0 == block_replacements(
            inline_blocks(inline_initial(), xml_tokens(xml), updates),
            updates,
        ),
        updates.len() > 0 ==> spec_update_inline_versions(xml, updates) == match spec_apply_replacements(
            xml,
            block_replacements(inline_blocks(inline_initial(), xml_tokens(xml), updates), updates),
        ) {
            Some(t) => Ok::<Seq<char>, Seq<char>>(t),
            None => Err(misfit_detail()),
        },
{
    lemma_inline_run_replacements(inline_initial(), xml_tokens(xml), updates);
    assert(inline_initial().found + block_replacements(inline_blocks(inline_initial(), xml_tokens(xml), updates), updates)
        =~= block_replacements(inline_blocks(inline_initial(), xml_tokens(xml), updates), updates));
}

proof fn lemma_no_block_replacement(blocks: Seq<BlockRecord>, updates: Seq<InlineUpdateView>)
    requires
        forall|k: int| 0 <= k < blocks.len() && (#[trigger] blocks[k]).group_id is Some && blocks[k].artifact_id is Some
            ==> first_update(updates, blocks[k].group_id->0, blocks[k].artifact_id->0) is None,
    ensures
        block_replacements(blocks, updates).len() == 0,
    decreases blocks.len(),
{
    if blocks.len() > 0 {
        assert forall|k: int| 0 <= k < blocks.drop_first().len() && (#[trigger] blocks.drop_first()[k]).group_id is Some
            && blocks.drop_first()[k].artifact_id is Some implies first_update(
            updates,
            blocks.drop_first()[k].group_id->0,
            blocks.drop_first()[k].artifact_id->0,
        ) is None by {
            assert(blocks.drop_first()[k] == blocks[k + 1]);
        }
        lemma_no_block_replacement(blocks.drop_first(), updates);
        let b = blocks[0];
        assert(block_replacement(b, updates) is None);
    }
}

/// A document whose dependency and plugin blocks match no update is returned
/// unchanged, once it reads without error: no version is replaced.
pub proof fn lemma_unmatched_blocks_keep_text(xml: Seq<char>, updates: Seq<InlineUpdateView>)
    requires
        forall|k: int| 0 <= k < inline_blocks(inline_initial(), xml_tokens(xml), updates).len()
            && (#[trigger] inline_blocks(inline_initial(), xml_tokens(xml), updates)[k]).group_id is Some
            && inline_blocks(inline_initial(), xml_tokens(xml), updates)[k].artifact_id is Some ==> first_update(
            updates,
            inline_blocks(inline_initial(), xml_tokens(xml), updates)[k].group_id->0,
            inline_blocks(inline_initial(), xml_tokens(xml), updates)[k].artifact_id->0,
        ) is None,
        spec_find_inline_replacements(xml_tokens(xml), updates) is Ok,
    ensures
        spec_update_inline_versions(xml, updates) == Ok::<Seq<char>, Seq<char>>(xml),
{
    lemma_inline_rewrite(xml, updates);
    lemma_no_block_replacement(inline_blocks(inline_initial(), xml_tokens(xml), updates), updates);
    let reps = spec_find_inline_replacements(xml_tokens(xml), updates)->Ok_0;
    assert(reps =~= Seq::<ReplacementView>::empty());
    lemma_no_replacements_keep_text(xml);
}

/// The replacements that set the versions of the blocks matched by `updates`,
/// in document order, or the message of the syntax error that stops the scan.
pub open spec fn spec_find_inline_replacements(tokens: Seq<TokenView>, updates: Seq<InlineUpdateView>) -> Result<
    Seq<ReplacementView>,
    Seq<char>,
> {
    inline_run(inline_initial(), tokens, updates)
}

struct InlineScanner {
    path: Vec<String>,
    in_block: bool,
    group_id: Option<String>,
    artifact_id: Option<String>,
    version_start: Option<usize>,
    version_end: Option<usize>,
    child: Option<String>,
    child_text: String,
    found: Vec<Replacement>,
}

impl View for InlineScanner {
    type V = InlineScan;

    closed spec fn view(&self) -> InlineScan {
        InlineScan {
            path: crate::pom::strings_view(self.path@),
            in_block: self.in_block,
            group_id: crate::pom::opt_view(self.group_id),
            artifact_id: crate::pom::opt_view(self.artifact_id),
            version_start: self.version_start,
            version_end: self.version_end,
            child: crate::pom::opt_view(self.child),
            child_text: self.child_text@,
            found: replacement_views(self.found@),
        }
    }
}

fn first_update_exec(updates: &Vec<InlineVersionUpdate>, group_id: &String, artifact_id: &String) -> (r: Option<String>)
    ensures
        crate::pom::opt_view(r) == first_update(update_views(updates@), group_id@, artifact_id@),
{
    let ghost u = update_views(updates@);
    assert(u.skip(0) =~= u);
    let mut i: usize = 0;
    while i < updates.len()
        invariant
            u == update_views(updates@),
            i <= updates@.len(),
            first_update(u, group_id@, artifact_id@) == first_update(u.skip(i as int), group_id@, artifact_id@),
        decreases updates@.len() - i,
    {
        assert(u.skip(i as int)[0] == updates@[i as int]@);
        assert(u.skip(i as int).drop_first() =~= u.skip(i as int + 1));
        if str_eq(updates[i].group_id.as_str(), group_id.as_str()) && str_eq(
            updates[i].artifact_id.as_str(),
            artifact_id.as_str(),
        ) {
            return Some(updates[i].new_version.clone());
        }
        i = i + 1;
    }
    None
}

fn inline_start_exec(st: &mut InlineScanner, local: String, after: usize)
    ensures
        final(st)@ == inline_start(old(st)@, local@, after),
{
    let ghost s = st@;
    st.path.push(local.clone());
    assert(crate::pom::strings_view(st.path@) =~= s.path.push(local@));
    if !st.in_block {
        if is_artifact_block(&st.path) {
            st.in_block = true;
            st.group_id = None;
            st.artifact_id = None;
            st.version_start = None;
            st.version_end = None;
        }
    } else if !is_nested_block(&st.path) {
        if str_eq(local.as_str(), "version") {
            st.version_start = Some(after);
        }
        st.child = Some(local);
        st.child_text = String::new();
    }
}

fn inline_end_exec(st: &mut InlineScanner, local: String, before: usize, updates: &Vec<InlineVersionUpdate>)
    ensures
        final(st)@ == ({
            let s2 = inline_end_block(inline_end_child(old(st)@, local@, before), local@, update_views(updates@));
            InlineScan { path: path_pop(s2.path), ..s2 }
        }),
{
    let ghost s = st@;
    let is_child = match &st.child {
        Some(c) => str_eq(c.as_str(), local.as_str()),
        None => false,
    };
    if is_child {
        let value = trim(st.child_text.as_str());
        if str_eq(local.as_str(), "groupId") {
            st.group_id = Some(value);
        } else if str_eq(local.as_str(), "artifactId") {
            st.artifact_id = Some(value);
        } else if str_eq(local.as_str(), "version") {
            st.version_end = Some(before);
        }
        st.child = None;
        st.child_text = String::new();
    }
    assert(st@ == inline_end_child(s, local@, before));
    let ghost s1 = st@;
    if st.in_block && is_artifact_element(local.as_str()) {
        let matched = match (&st.group_id, &st.artifact_id, st.version_start, st.version_end) {
            (Some(g), Some(a), Some(vs), Some(ve)) => match first_update_exec(updates, g, a) {
                Some(v) => Some(Replacement { start: vs, end: ve, new_value: v }),
                None => None,
            },
            _ => None,
        };
        match matched {
            Some(r) => {
                st.found.push(r);
            },
            None => {},
        }
        assert(replacement_views(st.found@) =~= inline_end_block(s1, local@, update_views(updates@)).found);
        st.in_block = false;
        st.group_id = None;
        st.artifact_id = None;
        st.version_start = None;
        st.version_end = None;
    }
    assert(st@ == inline_end_block(s1, local@, update_views(updates@)));
    pop_path(&mut st.path);
}

fn inline_step_exec(st: &mut InlineScanner, t: &XmlToken, updates: &Vec<InlineVersionUpdate>) -> (r: StepResult)
    ensures
        match inline_step(old(st)@, t@, update_views(updates@)) {
            ScanStep::Next(n) => r is Next && final(st)@ == n,
            ScanStep::Done(f) => r is Done && final(st)@.found == f,
            ScanStep::Failed(m) => r matches StepResult::Failed(msg) && msg@ == m,
        },
{
    match t {
        XmlToken::Start { name, after } => {
            let local = local_name(name);
            inline_start_exec(st, local, *after);
            StepResult::Next
        },
        XmlToken::End { name, before } => {
            let local = local_name(name);
            inline_end_exec(st, local, *before, updates);
            StepResult::Next
        },
        XmlToken::Text { text } => {
            if st.child.is_some() {
                match text {
                    Some(x) => {
                        st.child_text.append(x.as_str());
                    },
                    None => {
                        assert(st.child_text@ + Seq::<char>::empty() =~= st.child_text@);
                    },
                }
            }
            StepResult::Next
        },
        XmlToken::Eof => StepResult::Done,
        XmlToken::Error { message } => StepResult::Failed(xml_error_detail(message)),
    }
}

/// Finds the replacements that set the inline versions of the dependency and
/// plugin blocks matched by `updates`, outside `exclusions` and `configuration`.
/// Fails on a syntax error.
pub fn find_inline_replacements(tokens: &Vec<XmlToken>, updates: &Vec<InlineVersionUpdate>) -> (r: Result<
    Vec<Replacement>,
    String,
>)
    ensures
        match spec_find_inline_replacements(token_views(tokens@), update_views(updates@)) {
            Ok(f) => r matches Ok(v) && replacement_views(v@) == f,
            Err(m) => r matches Err(e) && e@ == m,
        },
{
    let ghost views = token_views(tokens@);
    let mut st = InlineScanner {
        path: Vec::new(),
        in_block: false,
        group_id: None,
        artifact_id: None,
        version_start: None,
        version_end: None,
        child: None,
        child_text: String::new(),
        found: Vec::new(),
    };
    proof {
        assert(st@.path =~= inline_initial().path);
        assert(st@.found =~= inline_initial().found);
        assert(views.skip(0) =~= views);
    }
    let mut i: usize = 0;
    while i < tokens.len()
        invariant
            views == token_views(tokens@),
            i <= tokens@.len(),
            inline_run(st@, views.skip(i as int), update_views(updates@)) == spec_find_inline_replacements(
                views,
                update_views(updates@),
            ),
        decreases tokens@.len() - i,
    {
        assert(views.skip(i as int)[0] == tokens@[i as int]@);
        assert(views.skip(i as int).drop_first() =~= views.skip(i as int + 1));
        match inline_step_exec(&mut st, &tokens[i], updates) {
            StepResult::Next => {},
            StepResult::Done => {
                return Ok(st.found);
            },
            StepResult::Failed(m) => {
                return Err(m);
            },
        }
        i = i + 1;
    }
    Ok(st.found)
}

/// What [`update_inline_versions`] returns for `xml` and `updates`.
pub open spec fn spec_update_inline_versions(xml: Seq<char>, updates: Seq<InlineUpdateView>) -> Result<Seq<char>, Seq<char>> {
    if updates.len() == 0 {
        Ok(xml)
    } else {
        match spec_find_inline_replacements(xml_tokens(xml), updates) {
            Err(m) => Err(m),
            Ok(reps) => match spec_apply_replacements(xml, reps) {
                Some(t) => Ok(t),
                None => Err(misfit_detail()),
            },
        }
    }
}

/// Updates inline dependency and plugin versions in a POM document while
/// preserving its formatting.
///
/// The `<version>` of each dependency or plugin block whose coordinates an update
/// names gets that update's version; with no updates the document is returned
/// unchanged.
pub fn update_inline_versions(xml: &str, updates: &Vec<InlineVersionUpdate>) -> (r: Result<String, DepupError>)
    ensures
        match spec_update_inline_versions(xml@, update_views(updates@)) {
            Ok(t) => r matches Ok(s) && s@ == t,
            Err(m) => r matches Err(e) && e.code == crate::error::DepupErrorCode::PomParseFailed
                && e.message@ == writer_error_message(m),
        },
{
    if updates.len() == 0 {
        return Ok(String::from_str(xml));
    }
    let tokens = read_tokens(xml);
    match find_inline_replacements(&tokens, updates) {
        Err(m) => Err(parse_error(m.as_str())),
        Ok(reps) => match apply_replacements(xml, reps) {
            Some(s) => Ok(s),
            None => Err(misfit_error()),
        },
    }
}

} // verus!
