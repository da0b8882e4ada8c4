use unicode_segmentation::UnicodeSegmentation;
use unicode_width::UnicodeWidthStr;
use vstd::prelude::*;

use crate::strings::push_char;

verus! {

/// The marker shown when content exists to the left of a viewport.
pub const LEADING_INDICATOR: char = '‹';

/// The marker shown when content exists to the right of a viewport.
pub const TRAILING_INDICATOR: char = '›';

/// What `unicode_width::UnicodeWidthStr::width` returns for a string: its
/// displayed width in terminal columns under UAX #11 (not, in general, the
/// sum of the widths of its characters).
pub uninterp spec fn unicode_str_width(s: Seq<char>) -> usize;

/// What `unicode_segmentation::UnicodeSegmentation::graphemes(s, true)`
/// yields: the extended grapheme clusters of a string, in order.
pub uninterp spec fn extended_graphemes(s: Seq<char>) -> Seq<Seq<char>>;

/// The character sequences of a list of strings.
pub open spec fn string_views(v: Seq<String>) -> Seq<Seq<char>> {
    Seq::new(v.len(), |i: int| v[i]@)
}

/// Calls `UnicodeWidthStr::width`. The contract names the result; the crate
/// source computes it by folding over the characters from the right, which
/// adds nothing for an empty string.
#[verifier::external_body]
fn unicode_width_of(text: &str) -> (width: usize)
    ensures
        width == unicode_str_width(text@),
        text@.len() == 0 ==> width == 0,
{
    UnicodeWidthStr::width(text)
}

/// Calls `UnicodeSegmentation::graphemes(text, true)` and copies each
/// cluster. The contract names the clusters; the crate source yields
/// consecutive, non-empty slices from the start of the string to its end, so
/// the clusters concatenate to the string.
#[verifier::external_body]
fn grapheme_clusters(text: &str) -> (clusters: Vec<String>)
    ensures
        string_views(clusters@) == extended_graphemes(text@),
        string_views(clusters@).flatten() == text@,
        forall|i: int| 0 <= i < clusters@.len() ==> (#[trigger] clusters@[i])@.len() > 0,
{
    text.graphemes(true).map(|grapheme| grapheme.to_string()).collect()
}

/// `n` saturated to the range of `u16`.
pub open spec fn saturate_u16(n: int) -> u16 {
    if n > u16::MAX {
        u16::MAX
    } else if n < 0 {
        0
    } else {
        n as u16
    }
}

/// The display width of a string in terminal cells, saturated at `u16::MAX`.
pub open spec fn cells(s: Seq<char>) -> u16 {
    saturate_u16(unicode_str_width(s) as int)
}

/// The saturating sum of the cell widths of the first `k` grapheme clusters.
pub open spec fn prefix_cells(clusters: Seq<Seq<char>>, k: int) -> u16
    decreases k,
{
    if k <= 0 {
        0
    } else {
        saturate_u16(prefix_cells(clusters, k - 1) + cells(clusters[k - 1]))
    }
}

/// The number of leading clusters whose running width stays within `limit`:
/// the first `k` at which adding cluster `k` would exceed `limit`, or the
/// number of clusters when none does.
pub open spec fn clusters_within(clusters: Seq<Seq<char>>, limit: u16, k: int) -> int
    decreases clusters.len() - k,
{
    if k >= clusters.len() {
        clusters.len() as int
    } else if prefix_cells(clusters, k + 1) > limit {
        k
    } else {
        clusters_within(clusters, limit, k + 1)
    }
}

/// The running width at the first cluster boundary `k >= from + 1` from
/// which the rest of the text (`total` cells wide) fits in `room` cells,
/// or 0 when there is none.
pub open spec fn first_fitting_offset(
    clusters: Seq<Seq<char>>,
    total: u16,
    room: u16,
    from: int,
) -> u16
    decreases clusters.len() - from,
{
    if from >= clusters.len() {
        0
    } else if saturate_u16(total - prefix_cells(clusters, from + 1)) <= room {
        prefix_cells(clusters, from + 1)
    } else {
        first_fitting_offset(clusters, total, room, from + 1)
    }
}

/// The greatest scroll offset that `maximum_scroll_offset` allows.
pub open spec fn maximum_offset_of(text: Seq<char>, viewport_cells: u16) -> u16 {
    let total = cells(text);
    if viewport_cells == 0 || total <= viewport_cells {
        0
    } else {
        let room: u16 = if viewport_cells - 1 >= 1 { (viewport_cells - 1) as u16 } else { 1 };
        first_fitting_offset(extended_graphemes(text), total, room, 0)
    }
}

/// The clusters that start at or after `offset` cells: the text from the
/// first cluster that does not end within `offset`.
pub open spec fn text_after(text: Seq<char>, offset: u16) -> Seq<char> {
    let clusters = extended_graphemes(text);
    clusters.skip(clusters_within(clusters, offset, 0)).flatten()
}

/// The offset in cells at which `text_after(text, offset)` starts.
pub open spec fn offset_reached(text: Seq<char>, offset: u16) -> u16 {
    let clusters = extended_graphemes(text);
    prefix_cells(clusters, clusters_within(clusters, offset, 0))
}

/// The longest run of whole leading clusters of `text` that fits in `width`.
pub open spec fn truncated(text: Seq<char>, width: u16) -> Seq<char> {
    let clusters = extended_graphemes(text);
    clusters.take(clusters_within(clusters, width, 0)).flatten()
}

/// The cells left for content in a viewport of `viewport_cells` cells once
/// the leading indicator (if any, `leading` cells) and, when the rest does
/// not fit, the trailing indicator are accounted for.
pub open spec fn content_budget(remaining: u16, leading: u16, viewport_cells: u16) -> u16 {
    if remaining + leading <= viewport_cells {
        (viewport_cells - leading) as u16
    } else {
        saturate_u16(viewport_cells - (leading + 1))
    }
}

/// The offset, in cells, that scrolling settles on: the requested offset,
/// clamped to the greatest one.
pub open spec fn settled_offset(text: Seq<char>, requested_offset: u16, viewport_cells: u16) -> u16 {
    let maximum = maximum_offset_of(text, viewport_cells);
    if requested_offset <= maximum {
        requested_offset
    } else {
        maximum
    }
}

/// The cells (0 or 1) taken by the leading indicator.
pub open spec fn leading_cells(text: Seq<char>, requested_offset: u16, viewport_cells: u16) -> u16 {
    if offset_reached(text, settled_offset(text, requested_offset, viewport_cells)) > 0 {
        1
    } else {
        0
    }
}

/// The text after the settled offset.
pub open spec fn visible_text(text: Seq<char>, requested_offset: u16, viewport_cells: u16) -> Seq<
    char,
> {
    text_after(text, settled_offset(text, requested_offset, viewport_cells))
}

/// The cells available to content beside the indicators.
pub open spec fn scroll_budget(text: Seq<char>, requested_offset: u16, viewport_cells: u16) -> u16 {
    content_budget(
        cells(visible_text(text, requested_offset, viewport_cells)),
        leading_cells(text, requested_offset, viewport_cells),
        viewport_cells,
    )
}

/// Whether the trailing indicator is shown: text remains beyond the content
/// and the budget left a cell for the indicator.
pub open spec fn has_trailing(text: Seq<char>, requested_offset: u16, viewport_cells: u16) -> bool {
    let visible = visible_text(text, requested_offset, viewport_cells);
    let budget = scroll_budget(text, requested_offset, viewport_cells);
    &&& cells(truncated(visible, budget)) < cells(visible)
    &&& leading_cells(text, requested_offset, viewport_cells) + budget + 1 <= viewport_cells
}

/// The viewport that `scroll_text` renders: the leading indicator when
/// content lies to the left, the whole clusters that fit, and the trailing
/// indicator when content lies to the right and a cell is left for it.
pub open spec fn scrolled(text: Seq<char>, requested_offset: u16, viewport_cells: u16) -> Seq<char> {
    if viewport_cells == 0 {
        Seq::empty()
    } else {
        let visible = visible_text(text, requested_offset, viewport_cells);
        let content = truncated(visible, scroll_budget(text, requested_offset, viewport_cells));
        (if leading_cells(text, requested_offset, viewport_cells) == 1 {
            seq![LEADING_INDICATOR]
        } else {
            Seq::empty()
        }) + content + (if has_trailing(text, requested_offset, viewport_cells) {
            seq![TRAILING_INDICATOR]
        } else {
            Seq::empty()
        })
    }
}

/// The cells a scrolled viewport occupies, counting each indicator as one
/// cell and the content cluster by cluster.
pub open spec fn scrolled_cells(text: Seq<char>, requested_offset: u16, viewport_cells: u16) -> int {
    if viewport_cells == 0 {
        0
    } else {
        let gs = extended_graphemes(visible_text(text, requested_offset, viewport_cells));
        let kept = clusters_within(gs, scroll_budget(text, requested_offset, viewport_cells), 0);
        leading_cells(text, requested_offset, viewport_cells) + prefix_cells(gs, kept) + (
        if has_trailing(text, requested_offset, viewport_cells) {
            1int
        } else {
            0int
        })
    }
}

/// Whether a text fits a viewport as it is: the viewport is not empty, the
/// text and its clusters together take no more cells than it has, and the
/// text does not start with a cluster of no width (which scrolling skips).
pub open spec fn fits_whole(text: Seq<char>, viewport_cells: u16) -> bool {
    let gs = extended_graphemes(text);
    &&& viewport_cells > 0
    &&& cells(text) <= viewport_cells
    &&& prefix_cells(gs, gs.len() as int) <= viewport_cells
    &&& (gs.len() > 0 ==> cells(gs[0]) > 0)
}

/// Whether the text after the first `k` clusters fits in `room` cells.
pub open spec fn rest_fits(clusters: Seq<Seq<char>>, total: u16, room: u16, k: int) -> bool {
    saturate_u16(total - prefix_cells(clusters, k)) <= room
}

proof fn lemma_prefix_cells_grow(clusters: Seq<Seq<char>>, j: int, k: int)
    requires
        0 <= j <= k,
    ensures
        prefix_cells(clusters, j) <= prefix_cells(clusters, k),
    decreases k - j,
{
    if j < k {
        lemma_prefix_cells_grow(clusters, j, k - 1);
    }
}

proof fn lemma_clusters_within_fit(clusters: Seq<Seq<char>>, limit: u16, from: int)
    requires
        0 <= from <= clusters.len(),
        prefix_cells(clusters, from) <= limit,
    ensures
        from <= clusters_within(clusters, limit, from) <= clusters.len(),
        prefix_cells(clusters, clusters_within(clusters, limit, from)) <= limit,
    decreases clusters.len() - from,
{
    if from < clusters.len() && prefix_cells(clusters, from + 1) <= limit {
        lemma_clusters_within_fit(clusters, limit, from + 1);
    }
}

proof fn lemma_clusters_within_all(clusters: Seq<Seq<char>>, limit: u16, from: int)
    requires
        0 <= from <= clusters.len(),
        prefix_cells(clusters, clusters.len() as int) <= limit,
    ensures
        clusters_within(clusters, limit, from) == clusters.len(),
    decreases clusters.len() - from,
{
    if from < clusters.len() {
        lemma_prefix_cells_grow(clusters, from + 1, clusters.len() as int);
        lemma_clusters_within_all(clusters, limit, from + 1);
    }
}

/// A scrolled viewport never takes more cells than the viewport has: each
/// indicator is one cell, and the content's clusters fit the cells left
/// beside them.
pub proof fn lemma_scrolled_text_fits_viewport(
    text: Seq<char>,
    requested_offset: u16,
    viewport_cells: u16,
)
    ensures
        scrolled_cells(text, requested_offset, viewport_cells) <= viewport_cells,
{
    if viewport_cells > 0 {
        let gs = extended_graphemes(visible_text(text, requested_offset, viewport_cells));
        let budget = scroll_budget(text, requested_offset, viewport_cells);
        lemma_clusters_within_fit(gs, budget, 0);
    }
}

proof fn lemma_first_fitting_offset(clusters: Seq<Seq<char>>, total: u16, room: u16, from: int)
    requires
        0 <= from <= clusters.len(),
    ensures
        (exists|k: int| from < k <= clusters.len() && #[trigger] rest_fits(clusters, total, room, k))
            ==> exists|k: int|
            from < k <= clusters.len() && #[trigger] rest_fits(clusters, total, room, k)
                && first_fitting_offset(clusters, total, room, from) == prefix_cells(clusters, k)
                && forall|j: int| from < j < k ==> !#[trigger] rest_fits(clusters, total, room, j),
        (forall|k: int| from < k <= clusters.len() ==> !#[trigger] rest_fits(clusters, total, room, k))
            ==> first_fitting_offset(clusters, total, room, from) == 0,
    decreases clusters.len() - from,
{
    if from < clusters.len() {
        lemma_first_fitting_offset(clusters, total, room, from + 1);
        if rest_fits(clusters, total, room, from + 1) {
            assert(forall|j: int| from < j < from + 1 ==> !#[trigger] rest_fits(clusters, total, room, j));
        } else {
            if exists|k: int| from < k <= clusters.len() && #[trigger] rest_fits(clusters, total, room, k) {
                let k = choose|k: int| from < k <= clusters.len() && #[trigger] rest_fits(clusters, total, room, k);
                assert(from + 1 < k);
            }
        }
    }
}

/// The cells left beside the leading indicator once a text is scrolled.
pub open spec fn scroll_room(viewport_cells: u16) -> u16 {
    if viewport_cells >= 2 {
        (viewport_cells - 1) as u16
    } else {
        1
    }
}

/// The greatest scroll offset is the width of the fewest leading clusters
/// after which the rest of the text fits beside the leading indicator, and
/// 0 when the text fits the viewport or no such clusters exist.
pub proof fn lemma_maximum_offset_is_least_fitting(text: Seq<char>, viewport_cells: u16)
    ensures
        viewport_cells == 0 || cells(text) <= viewport_cells ==> maximum_offset_of(
            text,
            viewport_cells,
        ) == 0,
        viewport_cells > 0 && cells(text) > viewport_cells && (exists|k: int|
            0 < k <= extended_graphemes(text).len() && #[trigger] rest_fits(
                extended_graphemes(text),
                cells(text),
                scroll_room(viewport_cells),
                k,
            )) ==> exists|k: int|
            0 < k <= extended_graphemes(text).len() && #[trigger] rest_fits(
                extended_graphemes(text),
                cells(text),
                scroll_room(viewport_cells),
                k,
            ) && maximum_offset_of(text, viewport_cells) == prefix_cells(extended_graphemes(text), k)
                && forall|j: int|
                0 < j < k ==> !#[trigger] rest_fits(
                    extended_graphemes(text),
                    cells(text),
                    scroll_room(viewport_cells),
                    j,
                ),
        viewport_cells > 0 && cells(text) > viewport_cells && (forall|k: int|
            0 < k <= extended_graphemes(text).len() ==> !#[trigger] rest_fits(
                extended_graphemes(text),
                cells(text),
                scroll_room(viewport_cells),
                k,
            )) ==> maximum_offset_of(text, viewport_cells) == 0,
{
    let gs = extended_graphemes(text);
    let total = cells(text);
    let room = scroll_room(viewport_cells);
    lemma_first_fitting_offset(gs, total, room, 0);
    if viewport_cells > 0 && total > viewport_cells {
        assert(maximum_offset_of(text, viewport_cells) == first_fitting_offset(gs, total, room, 0));
    }
}

/// Measures terminal display cells, saturating at the largest offset wtop
/// stores. Grapheme clusters are used for slicing so byte offsets never split
/// a user-visible character.
pub fn display_width(text: &str) -> (width: u16)
    ensures
        width == cells(text@),
{
    let width = unicode_width_of(text);
    if width > 65535 {
        u16::MAX
    } else {
        width as u16
    }
}

proof fn lemma_prefix_step(clusters: Seq<Seq<char>>, k: int)
    requires
        0 <= k,
    ensures
        prefix_cells(clusters, k + 1) == saturate_u16(prefix_cells(clusters, k) + cells(clusters[k])),
{
}

/// Returns the greatest valid display-cell offset for a viewport.
pub fn maximum_scroll_offset(text: &str, viewport_cells: u16) -> (offset: u16)
    ensures
        offset == maximum_offset_of(text@, viewport_cells),
{
    let total_width = display_width(text);
    if viewport_cells == 0 || total_width <= viewport_cells {
        return 0;
    }
    // Once scrolled, the leading indicator occupies one cell. Choose a
    // grapheme boundary from which the remaining text fits beside it.

    let final_content_cells = if viewport_cells - 1 >= 1 { viewport_cells - 1 } else { 1 };
    let clusters = grapheme_clusters(text);
    let ghost gs = extended_graphemes(text@);
    assert(maximum_offset_of(text@, viewport_cells) == first_fitting_offset(
        gs,
        total_width,
        final_content_cells,
        0,
    ));
    let mut consumed: u16 = 0;
    let mut i: usize = 0;
    while i < clusters.len()
        invariant
            i <= clusters@.len(),
            string_views(clusters@) == gs,
            gs == extended_graphemes(text@),
            total_width == cells(text@),
            maximum_offset_of(text@, viewport_cells) == first_fitting_offset(
                gs,
                total_width,
                final_content_cells,
                0,
            ),
            consumed == prefix_cells(gs, i as int),
            first_fitting_offset(gs, total_width, final_content_cells, 0)
                == first_fitting_offset(gs, total_width, final_content_cells, i as int),
        decreases clusters@.len() - i,
    {
        assert(gs[i as int] == clusters@[i as int]@);
        let width = display_width(clusters[i].as_str());
        proof {
            lemma_prefix_step(gs, i as int);
        }
        consumed = consumed.saturating_add(width);
        if total_width.saturating_sub(consumed) <= final_content_cells {
            assert(saturate_u16(total_width - consumed) == total_width.saturating_sub(consumed));
            assert(first_fitting_offset(gs, total_width, final_content_cells, i as int) == consumed);
            return consumed;
        }
        assert(saturate_u16(total_width - consumed) == total_width.saturating_sub(consumed));
        i = i + 1;
    }
    0
}

/// The text from the first grapheme cluster that does not end within
/// `offset` cells, and the offset at which it starts.
fn text_after_offset(text: &str, offset: u16) -> (result: (String, u16))
    ensures
        result.0@ == text_after(text@, offset),
        result.1 == offset_reached(text@, offset),
        extended_graphemes(text@).flatten() == text@,
{
    let clusters = grapheme_clusters(text);
    let ghost gs = extended_graphemes(text@);
    let mut consumed: u16 = 0;
    let mut i: usize = 0;
    while i < clusters.len()
        invariant
            i <= clusters@.len(),
            string_views(clusters@) == gs,
            gs == extended_graphemes(text@),
            gs.flatten() == text@,
            consumed == prefix_cells(gs, i as int),
            clusters_within(gs, offset, 0) == clusters_within(gs, offset, i as int),
        decreases clusters@.len() - i,
    {
        assert(gs[i as int] == clusters@[i as int]@);
        let grapheme_width = display_width(clusters[i].as_str());
        proof {
            lemma_prefix_step(gs, i as int);
        }
        if consumed.saturating_add(grapheme_width) > offset {
            let rest = join_from(&clusters, i);
            return (rest, consumed);
        }
        consumed = consumed.saturating_add(grapheme_width);
        i = i + 1;
    }
    proof {
        assert(gs.skip(gs.len() as int) =~= Seq::<Seq<char>>::empty());
        assert(Seq::<Seq<char>>::empty().flatten() =~= Seq::<char>::empty());
    }
    (String::new(), consumed)
}

/// Concatenates the strings of `parts` from index `from` on.
fn join_from(parts: &Vec<String>, from: usize) -> (joined: String)
    requires
        from <= parts@.len(),
    ensures
        joined@ == string_views(parts@).skip(from as int).flatten(),
{
    let ghost views = string_views(parts@).skip(from as int);
    let mut joined = String::new();
    let mut i = from;
    while i < parts.len()
        invariant
            from <= i <= parts@.len(),
            views == string_views(parts@).skip(from as int),
            joined@ == views.take(i - from).flatten_alt(),
        decreases parts@.len() - i,
    {
        proof {
            let next = views.take(i - from + 1);
            assert(next.drop_last() =~= views.take(i - from));
            assert(next.last() == parts@[i as int]@);
        }
        joined.append(parts[i].as_str());
        i = i + 1;
    }
    proof {
        assert(views.take(i - from) =~= views);
        views.lemma_flatten_and_flatten_alt_are_equivalent();
    }
    joined
}

/// The longest run of whole leading grapheme clusters of `text` whose width
/// fits in `width` cells.
fn truncate_to_width(text: &str, width: u16) -> (rendered: String)
    ensures
        rendered@ == truncated(text@, width),
{
    let clusters = grapheme_clusters(text);
    let ghost gs = extended_graphemes(text@);
    let mut rendered = String::new();
    let mut used_width: u16 = 0;
    let mut i: usize = 0;
    let mut full = false;
    while !full && i < clusters.len()
        invariant
            i <= clusters@.len(),
            string_views(clusters@) == gs,
            gs == extended_graphemes(text@),
            used_width == prefix_cells(gs, i as int),
            rendered@ == gs.take(i as int).flatten_alt(),
            clusters_within(gs, width, 0) == clusters_within(gs, width, i as int),
            full ==> clusters_within(gs, width, i as int) == i,
        decreases clusters@.len() - i, if full { 0int } else { 1int },
    {
        assert(gs[i as int] == clusters@[i as int]@);
        let grapheme_width = display_width(clusters[i].as_str());
        proof {
            lemma_prefix_step(gs, i as int);
        }
        if used_width.saturating_add(grapheme_width) > width {
            full = true;
        } else {
            proof {
                let next = gs.take(i + 1);
                assert(next.drop_last() =~= gs.take(i as int));
            }
            rendered.append(clusters[i].as_str());
            used_width = used_width.saturating_add(grapheme_width);
            i = i + 1;
        }
    }
    proof {
        gs.take(i as int).lemma_flatten_and_flatten_alt_are_equivalent();
    }
    rendered
}

/// Produces one terminal-cell viewport over text, with indicators when text
/// exists on either side of the visible content.
pub fn scroll_text(text: &str, requested_offset: u16, viewport_cells: u16) -> (rendered: String)
    ensures
        rendered@ == scrolled(text@, requested_offset, viewport_cells),
        scrolled_cells(text@, requested_offset, viewport_cells) <= viewport_cells,
        fits_whole(text@, viewport_cells) ==> rendered@ == text@,
        viewport_cells > 0 ==> extended_graphemes(text@).flatten() == text@,
{
    proof {
        lemma_scrolled_text_fits_viewport(text@, requested_offset, viewport_cells);
    }
    if viewport_cells == 0 {
        return String::new();
    }
    let maximum_offset = maximum_scroll_offset(text, viewport_cells);
    let requested_offset = if requested_offset <= maximum_offset {
        requested_offset
    } else {
        maximum_offset
    };
    let (visible_text, actual_offset) = text_after_offset(text, requested_offset);
    let has_leading_content = actual_offset > 0;
    let leading_width: u16 = if has_leading_content { 1 } else { 0 };
    let remaining_width = display_width(visible_text.as_str());
    let room_for_trailing = (remaining_width as u32) + (leading_width as u32) > (
    viewport_cells as u32) && viewport_cells > leading_width;
    let content_budget = if (remaining_width as u32) + (leading_width as u32) <= (
    viewport_cells as u32) {
        viewport_cells - leading_width
    } else {
        viewport_cells.saturating_sub(leading_width + 1)
    };
    let content = truncate_to_width(visible_text.as_str(), content_budget);
    let has_trailing_content = display_width(content.as_str()) < remaining_width
        && room_for_trailing;

    let mut rendered = String::new();
    if has_leading_content {
        push_char(&mut rendered, LEADING_INDICATOR);
    }
    rendered.append(content.as_str());
    if has_trailing_content {
        push_char(&mut rendered, TRAILING_INDICATOR);
    }
    proof {
        let lead: Seq<char> = if has_leading_content { seq![LEADING_INDICATOR] } else { Seq::empty() };
        let trail: Seq<char> = if has_trailing_content { seq![TRAILING_INDICATOR] } else { Seq::empty() };
        assert(rendered@ =~= lead + content@ + trail);
        if fits_whole(text@, viewport_cells) {
            let gs = extended_graphemes(text@);
            assert(requested_offset == 0);
            assert(clusters_within(gs, 0, 0) == 0);
            assert(gs.skip(0) =~= gs);
            assert(visible_text@ == text@);
            lemma_clusters_within_all(gs, viewport_cells, 0);
            assert(gs.take(gs.len() as int) =~= gs);
            assert(content@ == text@);
        }
    }
    rendered
}

} // verus!
