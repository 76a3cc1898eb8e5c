//! The name under which a download is kept, taken from the path of its URL.
//!
//! A URL is read as `scheme:` `//authority` `path` `?query` `#fragment`, each
//! part but the path being optional. The scheme ends at the first colon, unless
//! a slash stands before it. An authority follows where two slashes do, and
//! runs up to the next slash. The path ends where a query or a fragment
//! begins. The name is what follows the last slash of the path. Whether the
//! text is a URL at all is not judged here.

use vstd::prelude::*;

verus! {

/// The name a download gets where its URL offers none.
pub const FALLBACK_FILE_NAME: &'static str = "requestsr";

/// Whether no character of `text` is a slash.
pub open spec fn has_no_slash(text: Seq<char>) -> bool {
    forall|i: int| 0 <= i < text.len() ==> text[i] != '/'
}

/// Whether `c` ends the path of a URL: a query begins with `?`, a fragment with `#`.
pub open spec fn ends_path(c: char) -> bool {
    c == '?' || c == '#'
}

/// Whether neither a query nor a fragment begins anywhere in `text`.
pub open spec fn has_no_query(text: Seq<char>) -> bool {
    forall|i: int| 0 <= i < text.len() ==> !ends_path(#[trigger] text[i])
}

/// Whether no character of `text` is a colon.
pub open spec fn has_no_colon(text: Seq<char>) -> bool {
    forall|i: int| 0 <= i < text.len() ==> text[i] != ':'
}

/// Whether `text` can stand before the colon of a scheme: it holds no colon, no
/// slash, and nothing that begins a query or a fragment.
pub open spec fn is_scheme_text(text: Seq<char>) -> bool {
    has_no_colon(text) && has_no_slash(text) && has_no_query(text)
}

/// What stands before the rest of a URL on account of its scheme: the scheme
/// with its colon, or nothing where the URL has no scheme.
pub open spec fn lead(scheme: Option<Seq<char>>) -> Seq<char> {
    match scheme {
        Some(name) => name.push(':'),
        None => Seq::empty(),
    }
}

/// The two slashes that stand before an authority.
pub open spec fn slashes() -> Seq<char> {
    seq!['/', '/']
}

/// Whether `text` begins with the two slashes that stand before an authority.
pub open spec fn begins_with_slashes(text: Seq<char>) -> bool {
    text.len() >= 2 && text[0] == '/' && text[1] == '/'
}

/// Where the path of `text` ends: the first place at or after `from` where a
/// query or a fragment begins, and the end of `text` where none does.
pub open spec fn path_end_from(text: Seq<char>, from: int) -> int
    decreases text.len() - from,
{
    if from >= text.len() {
        text.len() as int
    } else if ends_path(text[from]) {
        from
    } else {
        path_end_from(text, from + 1)
    }
}

/// The place of the colon that ends the scheme: the first colon at or after
/// `from` and before `end` with no slash before it; -1 where there is none.
pub open spec fn scheme_colon_from(text: Seq<char>, from: int, end: int) -> int
    decreases end - from,
{
    if from >= end {
        -1
    } else if text[from] == ':' {
        from
    } else if text[from] == '/' {
        -1
    } else {
        scheme_colon_from(text, from + 1, end)
    }
}

/// Where what follows the scheme begins: after its colon, or at the beginning
/// of the text where it has no scheme.
pub open spec fn hier_start(text: Seq<char>, end: int) -> int {
    let colon = scheme_colon_from(text, 0, end);
    if colon < 0 {
        0
    } else {
        colon + 1
    }
}

/// Whether an authority begins at `hier`: two slashes stand there, before `end`.
pub open spec fn has_authority(text: Seq<char>, hier: int, end: int) -> bool {
    hier + 2 <= end && text[hier] == '/' && text[hier + 1] == '/'
}

/// The first place at or after `from` and before `end` that holds a slash;
/// `end` where there is none.
pub open spec fn first_slash_from(text: Seq<char>, from: int, end: int) -> int
    decreases end - from,
{
    if from >= end {
        end
    } else if text[from] == '/' {
        from
    } else {
        first_slash_from(text, from + 1, end)
    }
}

/// Where the path of `text` begins, given that it ends at `end`: at the first
/// slash after the authority where there is one, and right after the scheme
/// where there is none.
pub open spec fn path_start(text: Seq<char>, end: int) -> int {
    let hier = hier_start(text, end);
    if has_authority(text, hier, end) {
        first_slash_from(text, hier + 2, end)
    } else {
        hier
    }
}

/// The path of the URL `text`.
pub open spec fn url_path(text: Seq<char>) -> Seq<char> {
    let end = path_end_from(text, 0);
    text.subrange(path_start(text, end), end)
}

/// What follows the last slash of `text`; all of `text` where it has no slash.
pub open spec fn final_segment(text: Seq<char>) -> Seq<char>
    decreases text.len(),
{
    if text.len() == 0 || text.last() == '/' {
        Seq::empty()
    } else {
        final_segment(text.drop_last()).push(text.last())
    }
}

/// The file name derived from `url`: the final segment of its path, or the
/// fallback name where that segment is empty.
pub open spec fn derived_filename(url: Seq<char>) -> Seq<char> {
    let segment = final_segment(url_path(url));
    if segment.len() == 0 {
        FALLBACK_FILE_NAME@
    } else {
        segment
    }
}

/// Whether the final segment of `text` begins at `start`: no slash stands at or
/// after `start`, and what stands just before it, if anything, is a slash.
pub open spec fn starts_final_segment(text: Seq<char>, start: int) -> bool {
    &&& 0 <= start <= text.len()
    &&& forall|j: int| start <= j < text.len() ==> text[j] != '/'
    &&& start == 0 || text[start - 1] == '/'
}

/// The final segment is what stands from its beginning on.
pub proof fn lemma_final_segment_from(text: Seq<char>, start: int)
    requires
        starts_final_segment(text, start),
    ensures
        final_segment(text) == text.skip(start),
    decreases text.len(),
{
    if text.len() == 0 || text.last() == '/' {
        assert(start == text.len());
        assert(text.skip(start) =~= Seq::<char>::empty());
    } else {
        let shorter = text.drop_last();
        assert(start < text.len());
        assert(starts_final_segment(shorter, start));
        lemma_final_segment_from(shorter, start);
        assert(shorter.skip(start).push(text.last()) =~= text.skip(start));
    }
}

/// No slash stands in a final segment.
pub proof fn lemma_final_segment_has_no_slash(text: Seq<char>)
    ensures
        has_no_slash(final_segment(text)),
    decreases text.len(),
{
    if text.len() == 0 || text.last() == '/' {
    } else {
        lemma_final_segment_has_no_slash(text.drop_last());
    }
}

/// A final segment of a text in which no query begins holds none either.
pub proof fn lemma_final_segment_has_no_query(text: Seq<char>)
    requires
        has_no_query(text),
    ensures
        has_no_query(final_segment(text)),
    decreases text.len(),
{
    if text.len() == 0 || text.last() == '/' {
    } else {
        let shorter = text.drop_last();
        assert forall|i: int| 0 <= i < shorter.len() implies !ends_path(#[trigger] shorter[i]) by {
            assert(shorter[i] == text[i]);
        }
        lemma_final_segment_has_no_query(shorter);
        assert(!ends_path(text[text.len() - 1]));
    }
}

/// The path ends at `end` where nothing from `from` up to `end` begins a query
/// or a fragment, and `end` does or is the end of the text.
pub proof fn lemma_path_end(text: Seq<char>, from: int, end: int)
    requires
        0 <= from <= end <= text.len(),
        forall|j: int| from <= j < end ==> !ends_path(#[trigger] text[j]),
        end == text.len() || ends_path(text[end]),
    ensures
        path_end_from(text, from) == end,
    decreases end - from,
{
    if from < end {
        lemma_path_end(text, from + 1, end);
    }
}

/// The end of the path lies at or after `from`, nothing between the two begins
/// a query or a fragment, and the end does unless it is the end of the text.
pub proof fn lemma_path_end_is_first(text: Seq<char>, from: int)
    requires
        0 <= from <= text.len(),
    ensures
        from <= path_end_from(text, from) <= text.len(),
        forall|j: int| from <= j < path_end_from(text, from) ==> !ends_path(#[trigger] text[j]),
        path_end_from(text, from) == text.len() || ends_path(text[path_end_from(text, from)]),
    decreases text.len() - from,
{
    if from < text.len() && !ends_path(text[from]) {
        lemma_path_end_is_first(text, from + 1);
    }
}

/// The first slash is at `slash` where none stands from `from` up to `slash`,
/// and `slash` holds one or is `end`.
pub proof fn lemma_first_slash(text: Seq<char>, from: int, slash: int, end: int)
    requires
        from <= slash <= end,
        forall|j: int| from <= j < slash ==> text[j] != '/',
        slash == end || text[slash] == '/',
    ensures
        first_slash_from(text, from, end) == slash,
    decreases slash - from,
{
    if from < slash {
        lemma_first_slash(text, from + 1, slash, end);
    }
}

/// The first slash lies at or after `from` and at or before `end`, and a slash
/// stands there unless it is `end`.
pub proof fn lemma_first_slash_is_in_range(text: Seq<char>, from: int, end: int)
    requires
        from <= end,
    ensures
        from <= first_slash_from(text, from, end) <= end,
        first_slash_from(text, from, end) == end || text[first_slash_from(text, from, end)] == '/',
    decreases end - from,
{
    if from < end && text[from] != '/' {
        lemma_first_slash_is_in_range(text, from + 1, end);
    }
}

/// No slash stands between `from` and the first slash.
pub proof fn lemma_first_slash_is_first(text: Seq<char>, from: int, end: int, j: int)
    requires
        from <= j < first_slash_from(text, from, end),
    ensures
        text[j] != '/',
    decreases end - from,
{
    if from < end && text[from] != '/' && from < j {
        lemma_first_slash_is_first(text, from + 1, end, j);
    }
}

/// The scheme ends at `colon` where a colon stands there, and neither a colon
/// nor a slash from `from` up to it.
pub proof fn lemma_scheme_colon(text: Seq<char>, from: int, colon: int, end: int)
    requires
        from <= colon < end,
        text[colon] == ':',
        forall|j: int| from <= j < colon ==> text[j] != ':' && text[j] != '/',
    ensures
        scheme_colon_from(text, from, end) == colon,
    decreases colon - from,
{
    if from < colon {
        lemma_scheme_colon(text, from + 1, colon, end);
    }
}

/// There is no scheme where no colon stands from `from` up to `stop`, and
/// `stop` holds a slash or is `end`.
pub proof fn lemma_no_scheme_colon(text: Seq<char>, from: int, stop: int, end: int)
    requires
        from <= stop <= end,
        forall|j: int| from <= j < stop ==> text[j] != ':' && text[j] != '/',
        stop == end || text[stop] == '/',
    ensures
        scheme_colon_from(text, from, end) == -1,
    decreases stop - from,
{
    if from < stop {
        lemma_no_scheme_colon(text, from + 1, stop, end);
    }
}

/// The colon of a scheme, where there is one, lies at or after `from` and
/// before `end`.
pub proof fn lemma_scheme_colon_is_in_range(text: Seq<char>, from: int, end: int)
    requires
        0 <= from,
    ensures
        scheme_colon_from(text, from, end) == -1 || from <= scheme_colon_from(text, from, end)
            < end,
    decreases end - from,
{
    if from < end && text[from] != ':' && text[from] != '/' {
        lemma_scheme_colon_is_in_range(text, from + 1, end);
    }
}

/// The path begins at or before its end.
pub proof fn lemma_path_start_is_in_range(text: Seq<char>, end: int)
    requires
        0 <= end,
    ensures
        0 <= path_start(text, end) <= end,
{
    lemma_scheme_colon_is_in_range(text, 0, end);
    let hier = hier_start(text, end);
    if has_authority(text, hier, end) {
        lemma_first_slash_is_in_range(text, hier + 2, end);
    }
}

/// Neither a query nor a fragment begins in the path of a URL.
pub proof fn lemma_path_has_no_query(url: Seq<char>)
    ensures
        has_no_query(url_path(url)),
{
    let end = path_end_from(url, 0);
    lemma_path_end_is_first(url, 0);
    lemma_path_start_is_in_range(url, end);
    let path = url_path(url);
    assert forall|i: int| 0 <= i < path.len() implies !ends_path(#[trigger] path[i]) by {
        assert(path[i] == url[i + path_start(url, end)]);
    }
}

/// Two texts that are alike before `end` have their scheme end at the same place.
pub proof fn lemma_scheme_colon_agrees(a: Seq<char>, b: Seq<char>, from: int, end: int)
    requires
        0 <= from,
        end <= a.len(),
        end <= b.len(),
        forall|j: int| 0 <= j < end ==> a[j] == b[j],
    ensures
        scheme_colon_from(a, from, end) == scheme_colon_from(b, from, end),
    decreases end - from,
{
    if from < end && a[from] != ':' && a[from] != '/' {
        lemma_scheme_colon_agrees(a, b, from + 1, end);
    }
}

/// Two texts that are alike before `end` have their first slash at the same place.
pub proof fn lemma_first_slash_agrees(a: Seq<char>, b: Seq<char>, from: int, end: int)
    requires
        0 <= from,
        end <= a.len(),
        end <= b.len(),
        forall|j: int| 0 <= j < end ==> a[j] == b[j],
    ensures
        first_slash_from(a, from, end) == first_slash_from(b, from, end),
    decreases end - from,
{
    if from < end && a[from] != '/' {
        lemma_first_slash_agrees(a, b, from + 1, end);
    }
}

/// A query and a fragment are no part of the path: the path of a URL is that of
/// the text before them, and so is the name. `body` is that text, and `rest`
/// the query and fragment.
pub proof fn lemma_rest_is_no_part_of_the_path(body: Seq<char>, rest: Seq<char>)
    requires
        has_no_query(body),
        rest.len() == 0 || ends_path(rest[0]),
    ensures
        path_end_from(body + rest, 0) == body.len(),
        path_end_from(body, 0) == body.len(),
        url_path(body + rest) == url_path(body),
        derived_filename(body + rest) == derived_filename(body),
{
    let url = body + rest;
    let end = body.len() as int;
    assert forall|j: int| 0 <= j < end implies url[j] == body[j] && !ends_path(
        #[trigger] url[j],
    ) by {}
    if rest.len() > 0 {
        assert(url[end] == rest[0]);
    }
    lemma_path_end(url, 0, end);
    lemma_path_end(body, 0, end);
    lemma_scheme_colon_agrees(url, body, 0, end);
    lemma_scheme_colon_is_in_range(body, 0, end);
    let hier = hier_start(body, end);
    if has_authority(body, hier, end) {
        lemma_first_slash_agrees(url, body, hier + 2, end);
    }
    lemma_path_start_is_in_range(body, end);
    assert(url.subrange(path_start(body, end), end) =~= body.subrange(path_start(body, end), end));
}

/// Where a text without query and fragment ends in a segment that begins at or
/// after the beginning of its path, right after a slash or at that beginning,
/// the segment is the name.
pub proof fn lemma_name_begins_at(body: Seq<char>, start: int, segment: Seq<char>)
    requires
        has_no_query(body),
        path_start(body, body.len() as int) <= start <= body.len(),
        start == path_start(body, body.len() as int) || body[start - 1] == '/',
        body.skip(start) == segment,
        segment.len() > 0,
        has_no_slash(segment),
    ensures
        derived_filename(body) == segment,
{
    let end = body.len() as int;
    let begin = path_start(body, end);
    lemma_path_end(body, 0, end);
    lemma_path_start_is_in_range(body, end);
    let path = body.subrange(begin, end);
    assert(starts_final_segment(path, start - begin)) by {
        assert forall|j: int| start - begin <= j < path.len() implies path[j] != '/' by {
            assert(path[j] == body.skip(start)[j + begin - start]);
        }
        if start > begin {
            assert(path[start - begin - 1] == body[start - 1]);
        }
    }
    lemma_final_segment_from(path, start - begin);
    assert(path.skip(start - begin) =~= body.skip(start));
}

/// Where neither of two texts begins a query or a fragment, the two in a row
/// do not either.
pub proof fn lemma_no_query_in_both(a: Seq<char>, b: Seq<char>)
    requires
        has_no_query(a),
        has_no_query(b),
    ensures
        has_no_query(a + b),
{
    let both = a + b;
    assert forall|j: int| 0 <= j < both.len() implies !ends_path(#[trigger] both[j]) by {
        if j < a.len() {
            assert(both[j] == a[j]);
        } else {
            assert(both[j] == b[j - a.len()]);
        }
    }
}

/// Neither a query nor a fragment begins in a scheme with its colon.
pub proof fn lemma_lead_has_no_query(scheme: Option<Seq<char>>)
    requires
        scheme matches Some(name) ==> is_scheme_text(name),
    ensures
        has_no_query(lead(scheme)),
{
    if let Some(name) = scheme {
        lemma_no_query_in_both(name, seq![':']);
        assert(name + seq![':'] =~= name.push(':'));
    }
}

/// What follows the scheme begins right after `lead(scheme)`. Where there is
/// no scheme, no colon may stand before the first slash of what follows.
pub proof fn lemma_hier_start(scheme: Option<Seq<char>>, hier: Seq<char>)
    requires
        scheme matches Some(name) ==> is_scheme_text(name),
        scheme is None ==> forall|j: int|
            0 <= j < first_slash_from(hier, 0, hier.len() as int) ==> hier[j] != ':',
    ensures
        hier_start(lead(scheme) + hier, (lead(scheme) + hier).len() as int) == lead(scheme).len(),
{
    let text = lead(scheme) + hier;
    let end = text.len() as int;
    match scheme {
        Some(name) => {
            let colon = name.len() as int;
            assert(text[colon] == ':');
            assert forall|j: int| 0 <= j < colon implies text[j] != ':' && text[j] != '/' by {
                assert(text[j] == name[j]);
            }
            lemma_scheme_colon(text, 0, colon, end);
        },
        None => {
            assert(text =~= hier);
            let stop = first_slash_from(hier, 0, end);
            lemma_first_slash_is_in_range(hier, 0, end);
            assert forall|j: int| 0 <= j < stop implies hier[j] != ':' && hier[j] != '/' by {
                lemma_first_slash_is_first(hier, 0, end, j);
            }
            lemma_no_scheme_colon(hier, 0, stop, end);
        },
    }
}

/// A URL whose text before the query is empty or ends in a slash gets the
/// fallback name: `body` is that text, and `rest` the query and fragment.
pub proof fn lemma_empty_segment_gives_fallback(body: Seq<char>, rest: Seq<char>)
    requires
        has_no_query(body),
        body.len() == 0 || body.last() == '/',
        rest.len() == 0 || ends_path(rest[0]),
    ensures
        derived_filename(body + rest) == FALLBACK_FILE_NAME@,
{
    lemma_rest_is_no_part_of_the_path(body, rest);
    let end = body.len() as int;
    lemma_path_start_is_in_range(body, end);
    let path = url_path(body);
    if path.len() > 0 {
        assert(path.last() == body[end - 1]);
    }
}

/// A URL with an authority and no path gets the fallback name: nothing but a
/// query or a fragment follows the authority.
pub proof fn lemma_no_path_gives_fallback(
    scheme: Option<Seq<char>>,
    authority: Seq<char>,
    rest: Seq<char>,
)
    requires
        scheme matches Some(name) ==> is_scheme_text(name),
        has_no_slash(authority),
        has_no_query(authority),
        rest.len() == 0 || ends_path(rest[0]),
    ensures
        derived_filename(lead(scheme) + slashes() + authority + rest) == FALLBACK_FILE_NAME@,
{
    let hier = slashes() + authority;
    let body = lead(scheme) + hier;
    let from = lead(scheme).len() as int;
    let end = body.len() as int;
    assert(lead(scheme) + slashes() + authority =~= body);
    lemma_lead_has_no_query(scheme);
    lemma_no_query_in_both(slashes(), authority);
    lemma_no_query_in_both(lead(scheme), hier);
    lemma_rest_is_no_part_of_the_path(body, rest);
    assert(hier[0] == '/');
    lemma_hier_start(scheme, hier);
    assert(body[from] == hier[0] && body[from + 1] == hier[1]);
    assert forall|j: int| from + 2 <= j < end implies body[j] != '/' by {
        assert(body[j] == authority[j - from - 2]);
    }
    lemma_first_slash(body, from + 2, end, end);
    assert(body.subrange(end, end) =~= Seq::<char>::empty());
}

/// A URL that is a scheme and nothing more, but for a query or a fragment, has
/// no path and gets the fallback name.
pub proof fn lemma_scheme_alone_gives_fallback(name: Seq<char>, rest: Seq<char>)
    requires
        is_scheme_text(name),
        rest.len() == 0 || ends_path(rest[0]),
    ensures
        derived_filename(lead(Some(name)) + rest) == FALLBACK_FILE_NAME@,
{
    let body = lead(Some(name));
    lemma_lead_has_no_query(Some(name));
    lemma_rest_is_no_part_of_the_path(body, rest);
    lemma_hier_start(Some(name), Seq::<char>::empty());
    assert(body + Seq::<char>::empty() =~= body);
    assert(body.subrange(body.len() as int, body.len() as int) =~= Seq::<char>::empty());
}

/// Where the path of a URL with an authority ends in a slash followed by a
/// non-empty segment, that segment is the derived name, whatever query or
/// fragment follows it.
///
/// The URL is the scheme with its colon, if any, two slashes, `middle`, a
/// slash, `segment` and `rest`: `middle` is the authority with the path up to
/// its last slash, and `rest` is empty or begins the query or the fragment.
pub proof fn lemma_last_segment_is_derived(
    scheme: Option<Seq<char>>,
    middle: Seq<char>,
    segment: Seq<char>,
    rest: Seq<char>,
)
    requires
        scheme matches Some(name) ==> is_scheme_text(name),
        has_no_query(middle),
        segment.len() > 0,
        has_no_slash(segment),
        has_no_query(segment),
        rest.len() == 0 || ends_path(rest[0]),
    ensures
        derived_filename(lead(scheme) + slashes() + middle + seq!['/'] + segment + rest)
            == segment,
{
    let hier = slashes() + middle + seq!['/'] + segment;
    let body = lead(scheme) + hier;
    let from = lead(scheme).len() as int;
    let last = from + 2 + middle.len();
    let end = body.len() as int;
    assert(lead(scheme) + slashes() + middle + seq!['/'] + segment =~= body);
    lemma_lead_has_no_query(scheme);
    lemma_no_query_in_both(slashes(), middle);
    lemma_no_query_in_both(slashes() + middle, seq!['/']);
    lemma_no_query_in_both(slashes() + middle + seq!['/'], segment);
    lemma_no_query_in_both(lead(scheme), hier);
    lemma_rest_is_no_part_of_the_path(body, rest);
    assert(hier[0] == '/');
    lemma_hier_start(scheme, hier);
    assert(body[from] == hier[0] && body[from + 1] == hier[1]);
    assert(body[last] == '/');
    lemma_first_slash_is_in_range(body, from + 2, end);
    let begin = first_slash_from(body, from + 2, end);
    if begin > last {
        lemma_first_slash_is_first(body, from + 2, end, last);
    }
    assert(body.skip(last + 1) =~= segment);
    lemma_name_begins_at(body, last + 1, segment);
}

/// The same for a URL without an authority: where its path ends in a slash
/// followed by a non-empty segment, that segment is the derived name.
///
/// The URL is the scheme with its colon, if any, `dirs`, a slash, `segment`
/// and `rest`: `dirs` is the path up to its last slash. Where there is no
/// scheme, no colon stands in `dirs` before its first slash.
pub proof fn lemma_last_segment_is_derived_without_authority(
    scheme: Option<Seq<char>>,
    dirs: Seq<char>,
    segment: Seq<char>,
    rest: Seq<char>,
)
    requires
        scheme matches Some(name) ==> is_scheme_text(name),
        scheme is None ==> has_no_colon(dirs.take(first_slash_from(dirs, 0, dirs.len() as int))),
        !begins_with_slashes(dirs.push('/')),
        has_no_query(dirs),
        segment.len() > 0,
        has_no_slash(segment),
        has_no_query(segment),
        rest.len() == 0 || ends_path(rest[0]),
    ensures
        derived_filename(lead(scheme) + dirs + seq!['/'] + segment + rest) == segment,
{
    let hier = dirs + seq!['/'] + segment;
    let body = lead(scheme) + hier;
    let from = lead(scheme).len() as int;
    let last = from + dirs.len();
    let end = body.len() as int;
    assert(lead(scheme) + dirs + seq!['/'] + segment =~= body);
    lemma_lead_has_no_query(scheme);
    lemma_no_query_in_both(dirs, seq!['/']);
    lemma_no_query_in_both(dirs + seq!['/'], segment);
    lemma_no_query_in_both(lead(scheme), hier);
    lemma_rest_is_no_part_of_the_path(body, rest);
    assert(hier[dirs.len() as int] == '/');
    if scheme is None {
        let stop = first_slash_from(dirs, 0, dirs.len() as int);
        lemma_first_slash_is_in_range(dirs, 0, dirs.len() as int);
        assert forall|j: int| 0 <= j < stop implies hier[j] != '/' && hier[j] != ':' by {
            lemma_first_slash_is_first(dirs, 0, dirs.len() as int, j);
            assert(hier[j] == dirs[j]);
            assert(dirs.take(stop)[j] == dirs[j]);
        }
        if stop < dirs.len() {
            assert(hier[stop] == dirs[stop]);
        }
        lemma_first_slash(hier, 0, stop, hier.len() as int);
    }
    lemma_hier_start(scheme, hier);
    assert(!has_authority(body, from, end)) by {
        assert(body[from] == hier[0]);
        if dirs.len() > 0 {
            assert(body[from + 1] == hier[1]);
            assert(hier[0] == dirs.push('/')[0]);
            assert(hier[1] == dirs.push('/')[1]);
        } else {
            assert(body[from + 1] == segment[0]);
        }
    }
    assert(body[last] == '/');
    assert(body.skip(last + 1) =~= segment);
    lemma_name_begins_at(body, last + 1, segment);
}

/// A URL whose path holds no slash has all of its path for its name:
/// `mailto:someone` gives `someone`, and `report.json` itself.
///
/// The URL is the scheme with its colon, if any, `segment` and `rest`. Where
/// there is no scheme, no colon stands in `segment`.
pub proof fn lemma_slashless_text_is_derived(
    scheme: Option<Seq<char>>,
    segment: Seq<char>,
    rest: Seq<char>,
)
    requires
        scheme matches Some(name) ==> is_scheme_text(name),
        scheme is None ==> has_no_colon(segment),
        segment.len() > 0,
        has_no_slash(segment),
        has_no_query(segment),
        rest.len() == 0 || ends_path(rest[0]),
    ensures
        derived_filename(lead(scheme) + segment + rest) == segment,
{
    let body = lead(scheme) + segment;
    let from = lead(scheme).len() as int;
    lemma_lead_has_no_query(scheme);
    lemma_no_query_in_both(lead(scheme), segment);
    lemma_rest_is_no_part_of_the_path(body, rest);
    lemma_first_slash_is_in_range(segment, 0, segment.len() as int);
    lemma_hier_start(scheme, segment);
    assert(body[from] == segment[0]);
    assert(body.skip(from) =~= segment);
    lemma_name_begins_at(body, from, segment);
}

/// The derived name is never empty, and neither a slash nor the beginning of a
/// query or a fragment stands in it.
pub proof fn lemma_derived_filename_is_a_name(url: Seq<char>)
    ensures
        derived_filename(url).len() > 0,
        has_no_slash(derived_filename(url)),
        has_no_query(derived_filename(url)),
{
    reveal_strlit("requestsr");
    lemma_final_segment_has_no_slash(url_path(url));
    lemma_path_has_no_query(url);
    lemma_final_segment_has_no_query(url_path(url));
}

/// The characters of `text`, one by one.
fn characters(text: &str) -> (chars: Vec<char>)
    ensures
        chars@ == text@,
{
    let mut chars: Vec<char> = Vec::new();
    for c in it: text.chars()
        invariant
            it.seq() == text@,
            chars@ == text@.take(it.index() as int),
    {
        chars.push(c);
        assert(text@.take(it.index() + 1) =~= text@.take(it.index() as int).push(c));
    }
    assert(text@.take(text@.len() as int) =~= text@);
    chars
}

/// Where the path ends.
fn path_end(chars: &Vec<char>) -> (end: usize)
    ensures
        end == path_end_from(chars@, 0),
        end <= chars.len(),
{
    let mut end: usize = 0;
    while end < chars.len() && chars[end] != '?' && chars[end] != '#'
        invariant
            end <= chars.len(),
            forall|j: int| 0 <= j < end ==> !ends_path(#[trigger] chars@[j]),
        decreases chars.len() - end,
    {
        end = end + 1;
    }
    proof {
        lemma_path_end(chars@, 0, end as int);
    }
    end
}

/// Where what follows the scheme begins.
fn scheme_end(chars: &Vec<char>, end: usize) -> (hier: usize)
    requires
        end <= chars.len(),
    ensures
        hier == hier_start(chars@, end as int),
        hier <= end,
{
    let mut stop: usize = 0;
    while stop < end && chars[stop] != ':' && chars[stop] != '/'
        invariant
            stop <= end <= chars.len(),
            forall|j: int| 0 <= j < stop ==> chars@[j] != ':' && chars@[j] != '/',
        decreases end - stop,
    {
        stop = stop + 1;
    }
    if stop < end && chars[stop] == ':' {
        proof {
            lemma_scheme_colon(chars@, 0, stop as int, end as int);
        }
        stop + 1
    } else {
        proof {
            lemma_no_scheme_colon(chars@, 0, stop as int, end as int);
        }
        0
    }
}

/// Where the path begins.
fn path_begin(chars: &Vec<char>, end: usize) -> (start: usize)
    requires
        end <= chars.len(),
    ensures
        start == path_start(chars@, end as int),
        start <= end,
{
    let hier: usize = scheme_end(chars, end);
    if end - hier >= 2 && chars[hier] == '/' && chars[hier + 1] == '/' {
        let mut slash: usize = hier + 2;
        while slash < end && chars[slash] != '/'
            invariant
                hier + 2 <= slash <= end <= chars.len(),
                forall|j: int| hier + 2 <= j < slash ==> chars@[j] != '/',
            decreases end - slash,
        {
            slash = slash + 1;
        }
        proof {
            lemma_first_slash(chars@, hier + 2, slash as int, end as int);
        }
        slash
    } else {
        hier
    }
}

/// Where the final segment of the path from `slash` to `end` begins.
fn segment_start(chars: &Vec<char>, slash: usize, end: usize) -> (start: usize)
    requires
        slash <= end <= chars.len(),
    ensures
        slash <= start <= end,
        final_segment(chars@.subrange(slash as int, end as int)) == chars@.subrange(
            start as int,
            end as int,
        ),
{
    let mut start: usize = end;
    while start > slash && chars[start - 1] != '/'
        invariant
            slash <= start <= end <= chars.len(),
            forall|j: int| start <= j < end ==> chars@[j] != '/',
        decreases start - slash,
    {
        start = start - 1;
    }
    proof {
        let path = chars@.subrange(slash as int, end as int);
        assert(starts_final_segment(path, start - slash)) by {
            assert forall|j: int| start - slash <= j < path.len() implies path[j] != '/' by {
                assert(path[j] == chars@[j + slash]);
            }
            if start > slash {
                assert(path[start - slash - 1] == chars@[start - 1]);
            }
        }
        lemma_final_segment_from(path, start - slash);
        assert(path.skip(start - slash) =~= chars@.subrange(start as int, end as int));
    }
    start
}

/// Derives the file name of a download from the URL it is fetched from.
pub fn derive_filename(url: &str) -> (name: String)
    ensures
        name@ == derived_filename(url@),
{
    let chars = characters(url);
    let end: usize = path_end(&chars);
    let begin: usize = path_begin(&chars, end);
    let start: usize = segment_start(&chars, begin, end);
    let segment = url.substring_char(start, end);
    if segment.is_empty() {
        FALLBACK_FILE_NAME.to_owned()
    } else {
        segment.to_owned()
    }
}

} // verus!
