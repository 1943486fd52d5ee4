//! What the Memory tab's pages list: the overview's scrolled window of
//! entries around the selection, each entry's label, the facet tally, the
//! search page's query line, and the notices shown when there is nothing to
//! list.

use vstd::prelude::*;

use crate::login::{spec_token_display, token_display};
use crate::declarations::strs;
use crate::task_sources::joined;
use crate::text::{concat, decimal, push_decimal, to_string};

verus! {

/// One entry of a Memory list.
pub enum MemoryEntryModel {
    /// A standing directive.
    Directive(String),
    /// A facet and how many observations it holds.
    Facet { name: String, count: usize },
    /// A search hit, by its label: facet, tier and score.
    Hit(String),
}

/// The selection within a list of `len` entries: `index`, or the last entry
/// (the first, when there is none).
pub open spec fn clamped_index(index: int, len: int) -> int {
    if len == 0 {
        0
    } else if index < len - 1 {
        index
    } else {
        len - 1
    }
}

/// How many rows a pane `height` rows tall shows: at least one.
pub open spec fn visible_rows(height: int) -> int {
    if height < 1 {
        1
    } else {
        height
    }
}

/// `a - b`, stopping at zero.
pub open spec fn sat_sub(a: int, b: int) -> int {
    if a > b {
        a - b
    } else {
        0
    }
}

/// The first listed row: the selection kept near the middle of the pane, but
/// never leaving rows empty past the end of the list.
pub open spec fn window_start(index: int, len: int, height: int) -> int {
    let sel = clamped_index(index, len);
    let vis = visible_rows(height);
    let a = sat_sub(sel, vis / 2);
    let b = sat_sub(len, vis);
    if a < b {
        a
    } else {
        b
    }
}

/// The scrolled window of a list of `len` entries, shown `height` rows tall
/// with the cursor at `index`: the first row shown, and the selected entry.
pub fn list_window(index: usize, len: usize, height: usize) -> (r: (usize, usize))
    ensures
        r.0 == window_start(index as int, len as int, height as int),
        r.1 == clamped_index(index as int, len as int),
{
    let sel = if len == 0 {
        0
    } else if index < len - 1 {
        index
    } else {
        len - 1
    };
    let vis = if height < 1 {
        1
    } else {
        height
    };
    let a = if sel > vis / 2 {
        sel - vis / 2
    } else {
        0
    };
    let b = if len > vis {
        len - vis
    } else {
        0
    };
    (if a < b {
        a
    } else {
        b
    }, sel)
}

/// The selected entry is always on screen: it lies in the window the pane
/// shows, and the window stays within the list.
pub proof fn lemma_selection_is_visible(index: int, len: int, height: int)
    requires
        0 <= index,
        len > 0,
    ensures
        ({
            let start = window_start(index, len, height);
            let sel = clamped_index(index, len);
            &&& 0 <= start <= sel < start + visible_rows(height)
            &&& start + visible_rows(height) <= len || start == 0
        }),
{
}

/// The label of a Memory list entry: a directive clipped to 30 columns, a
/// facet with its count, or a hit's own label.
pub open spec fn spec_entry_label(e: MemoryEntryModel) -> Seq<char> {
    match e {
        MemoryEntryModel::Directive(text) => "◆ "@ + spec_token_display(text@, 30),
        MemoryEntryModel::Facet { name, count } => "▪ "@ + name@ + " · "@ + decimal(count as nat),
        MemoryEntryModel::Hit(label) => label@,
    }
}

/// The label of `entry`.
pub fn entry_label(entry: &MemoryEntryModel) -> (r: String)
    ensures
        r@ == spec_entry_label(*entry),
{
    match entry {
        MemoryEntryModel::Directive(text) => {
            let clipped = token_display(text.as_str(), 30);
            concat("◆ ", clipped.as_str())
        },
        MemoryEntryModel::Facet { name, count } => {
            let a = concat("▪ ", name.as_str());
            let mut b = concat(a.as_str(), " · ");
            push_decimal(&mut b, *count);
            b
        },
        MemoryEntryModel::Hit(label) => to_string(label.as_str()),
    }
}

/// The tally of one facet, `name=count`.
pub open spec fn facet_tally(f: (String, usize)) -> Seq<char> {
    f.0@ + "="@ + decimal(f.1 as nat)
}

/// The facet line of the overview header.
pub open spec fn spec_facets_line(facets: Seq<(String, usize)>) -> Seq<char> {
    if facets.len() == 0 {
        "facets: (none)"@
    } else {
        "facets: "@ + joined(facets.map_values(|f: (String, usize)| facet_tally(f)), " "@)
    }
}

/// The overview's facet line: every facet's tally, space-separated, or
/// `(none)`.
pub fn facets_line(facets: &Vec<(String, usize)>) -> (r: String)
    ensures
        r@ == spec_facets_line(facets@),
{
    if facets.len() == 0 {
        return to_string("facets: (none)");
    }
    let ghost tallies = facets@.map_values(|f: (String, usize)| facet_tally(f));
    let mut out = String::new();
    let mut i: usize = 0;
    while i < facets.len()
        invariant
            i <= facets@.len(),
            tallies == facets@.map_values(|f: (String, usize)| facet_tally(f)),
            out@ == joined(tallies.take(i as int), " "@),
        decreases facets@.len() - i,
    {
        let ghost before = tallies.take(i as int);
        if i > 0 {
            out = concat(out.as_str(), " ");
        }
        let ghost mid = out@;
        out = concat(out.as_str(), facets[i].0.as_str());
        out = concat(out.as_str(), "=");
        push_decimal(&mut out, facets[i].1);
        proof {
            let after = tallies.take(i + 1);
            assert(after.drop_last() =~= before);
            assert(after.last() == facet_tally(facets@[i as int]));
            assert(out@ =~= mid + facet_tally(facets@[i as int]));
            if i == 0 {
                assert(after.len() == 1);
                assert(mid =~= Seq::<char>::empty());
            }
        }
        i += 1;
    }
    assert(tallies.take(facets@.len() as int) =~= tallies);
    concat("facets: ", out.as_str())
}

/// What the overview's list shows when it is empty.
pub fn overview_empty_notice() -> (r: &'static str)
    ensures
        r@ == "No directives or observations yet. Open Maintenance to backfill."@,
{
    "No directives or observations yet. Open Maintenance to backfill."
}

/// The search page's query line: the query clipped to 64 columns, or a note
/// that none was run yet.
pub fn search_query_line(query: Option<&str>) -> (r: String)
    ensures
        r@ == "query: "@ + spec_token_display(
            match query {
                Some(q) => q@,
                None => "(none yet)"@,
            },
            64,
        ),
{
    let q = match query {
        Some(q) => q,
        None => "(none yet)",
    };
    let clipped = token_display(q, 64);
    concat("query: ", clipped.as_str())
}

/// What the search page's result list shows when it is empty: that the
/// query found nothing, or, before any search, how to run one.
pub fn search_empty_notice(searched: bool) -> (r: &'static str)
    ensures
        searched ==> r@ == "No hits for that query."@,
        !searched ==> r@ == "Run a search to rank observations across facets."@,
{
    if searched {
        "No hits for that query."
    } else {
        "Run a search to rank observations across facets."
    }
}


/// What the overview's header reads of the memory service's status.
pub struct MemoryStatusModel {
    /// The workspace the memory belongs to.
    pub workspace: String,
    /// Whether the persona pack has been distilled.
    pub pack_exists: bool,
    /// Where the pack is.
    pub pack_path: String,
    /// How many observations are stored.
    pub entry_count: usize,
    /// How many directives are stored.
    pub directives_count: usize,
}

/// The overview header's lines above the facet line: the workspace, whether
/// the pack is present (and where), the counts, and the refresh hint.
pub open spec fn spec_overview_header(st: MemoryStatusModel) -> Seq<Seq<char>> {
    seq![
        "● enabled · "@ + spec_token_display(st.workspace@, 48),
        if st.pack_exists {
            "pack ● present · "@ + spec_token_display(st.pack_path@, 52)
        } else {
            "pack ○ absent · press b to backfill"@
        },
        decimal(st.entry_count as nat) + " observation(s) · "@ + decimal(st.directives_count as nat)
            + " directive(s)"@,
        "r refresh · maintenance controls live on page 3"@,
    ]
}

/// The overview header's lines above the facet line.
pub fn overview_header(st: &MemoryStatusModel) -> (r: Vec<String>)
    ensures
        strs(r@) == spec_overview_header(*st),
{
    let ws = token_display(st.workspace.as_str(), 48);
    let first = concat("● enabled · ", ws.as_str());
    let second = if st.pack_exists {
        let p = token_display(st.pack_path.as_str(), 52);
        concat("pack ● present · ", p.as_str())
    } else {
        to_string("pack ○ absent · press b to backfill")
    };
    let mut third = String::new();
    push_decimal(&mut third, st.entry_count);
    let mut third = concat(third.as_str(), " observation(s) · ");
    push_decimal(&mut third, st.directives_count);
    let third = concat(third.as_str(), " directive(s)");
    let fourth = to_string("r refresh · maintenance controls live on page 3");
    let r = vec![first, second, third, fourth];
    assert(strs(r@) =~= spec_overview_header(*st));
    r
}

/// What the overview shows when persona memory is off: what is missing and
/// how to turn it on.
pub fn disabled_lines() -> (r: Vec<&'static str>)
    ensures
        r@.len() == 3,
        r@[0]@ == "Persona memory is not enabled."@,
        r@[1]@ == "Enable it in config (memory.enabled = true) with an OpenRouter key,"@,
        r@[2]@ == "then run `medulla memory backfill` to distil your persona pack."@,
{
    vec![
        "Persona memory is not enabled.",
        "Enable it in config (memory.enabled = true) with an OpenRouter key,",
        "then run `medulla memory backfill` to distil your persona pack.",
    ]
}
} // verus!
