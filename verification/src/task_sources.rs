//! The Tasks tab's source page: one row per configured GitHub source and the
//! selected source's settings, with its credentials reported but never shown.

use vstd::prelude::*;

use crate::declarations::strs;
use crate::login::{spec_token_display, token_display};
use crate::text::{concat, to_string};

verus! {

/// One configured task source, as the page reads it.
pub struct TaskSourceModel {
    /// The repository, `owner/name`.
    pub repository: String,
    /// The provider, such as `github`.
    pub provider: String,
    /// Which issue state is synchronized.
    pub state: String,
    /// The labels an issue must carry.
    pub labels: Vec<String>,
    /// A custom search filter.
    pub filter: Option<String>,
    /// A token of its own; when absent the environment's is used.
    pub token: Option<String>,
    /// Whether the source is synchronized.
    pub enabled: bool,
}

/// What the source page shows: the list's rows and the detail pane's text.
pub struct TaskSourcesView {
    /// The list rows, top to bottom.
    pub rows: Vec<String>,
    /// The detail pane.
    pub detail: String,
}

/// How many columns a row gives the repository.
pub const SOURCE_REPOSITORY_COLUMNS: usize = 30;

/// The only row of an empty list.
pub open spec fn no_sources_row() -> Seq<char> {
    "No sources configured · press a to add GitHub"@
}

/// The detail pane of an empty list.
pub open spec fn no_source_detail() -> Seq<char> {
    "Add a GitHub repository source to synchronize open issues into the local task list."@
}

/// `items` with `sep` between neighbours.
pub open spec fn joined(items: Seq<Seq<char>>, sep: Seq<char>) -> Seq<char>
    decreases items.len(),
{
    if items.len() == 0 {
        Seq::empty()
    } else if items.len() == 1 {
        items[0]
    } else {
        joined(items.drop_last(), sep) + sep + items.last()
    }
}

/// The row of source `s`: a marker when it is selected, the repository
/// clipped to [`SOURCE_REPOSITORY_COLUMNS`], and whether it is enabled.
pub open spec fn spec_source_row(s: TaskSourceModel, selected: bool) -> Seq<char> {
    (if selected {
        "▸ "@
    } else {
        "  "@
    }) + spec_token_display(s.repository@, SOURCE_REPOSITORY_COLUMNS as nat) + " · "@ + (if s.enabled {
        "enabled"@
    } else {
        "disabled"@
    })
}

/// The labels line's value.
pub open spec fn labels_text(labels: Seq<String>) -> Seq<char> {
    if labels.len() == 0 {
        "(none)"@
    } else {
        joined(strs(labels), ", "@)
    }
}

/// The credentials line's value: whether a token is set, never the token.
pub open spec fn credentials_text(token: Option<String>) -> Seq<char> {
    if token is Some {
        "configured"@
    } else {
        "GITHUB_TOKEN / default"@
    }
}

/// The detail pane of source `s`.
pub open spec fn spec_source_detail(s: TaskSourceModel) -> Seq<char> {
    s.repository@ + "\n\nprovider: "@ + s.provider@ + "\nstate filter: "@ + s.state@
        + "\nlabels: "@ + labels_text(s.labels@) + "\ncustom filter: "@ + (match s.filter {
        Some(f) => f@,
        None => "(none)"@,
    }) + "\ncredentials: "@ + credentials_text(s.token)
}

/// The selected source of a list of `len`: `index`, or the last one.
pub open spec fn selected_source(index: int, len: int) -> int {
    if index < len - 1 {
        index
    } else {
        len - 1
    }
}

/// `labels` with `, ` between them.
fn join_labels(labels: &Vec<String>) -> (r: String)
    ensures
        r@ == joined(strs(labels@), ", "@),
{
    let mut out = String::new();
    let mut i: usize = 0;
    while i < labels.len()
        invariant
            i <= labels@.len(),
            out@ == joined(strs(labels@).take(i as int), ", "@),
        decreases labels@.len() - i,
    {
        let ghost before = strs(labels@).take(i as int);
        if i == 0 {
            out = to_string(labels[i].as_str());
        } else {
            let with_sep = concat(out.as_str(), ", ");
            out = concat(with_sep.as_str(), labels[i].as_str());
        }
        proof {
            let after = strs(labels@).take(i + 1);
            assert(after.drop_last() =~= before);
            assert(after.last() == labels@[i as int]@);
            if i == 0 {
                assert(after.len() == 1);
            }
        }
        i += 1;
    }
    assert(strs(labels@).take(labels@.len() as int) =~= strs(labels@));
    out
}

/// The row of `source`.
fn source_row(source: &TaskSourceModel, selected: bool) -> (r: String)
    ensures
        r@ == spec_source_row(*source, selected),
{
    let marker = if selected {
        "▸ "
    } else {
        "  "
    };
    let state = if source.enabled {
        "enabled"
    } else {
        "disabled"
    };
    let repo = token_display(source.repository.as_str(), SOURCE_REPOSITORY_COLUMNS);
    let a = concat(marker, repo.as_str());
    let b = concat(a.as_str(), " · ");
    concat(b.as_str(), state)
}

/// The detail pane of `source`.
fn source_detail(source: &TaskSourceModel) -> (r: String)
    ensures
        r@ == spec_source_detail(*source),
{
    let labels = if source.labels.len() == 0 {
        to_string("(none)")
    } else {
        join_labels(&source.labels)
    };
    let filter = match &source.filter {
        Some(f) => to_string(f.as_str()),
        None => to_string("(none)"),
    };
    let credentials = if source.token.is_some() {
        "configured"
    } else {
        "GITHUB_TOKEN / default"
    };
    let s = concat(source.repository.as_str(), "\n\nprovider: ");
    let s = concat(s.as_str(), source.provider.as_str());
    let s = concat(s.as_str(), "\nstate filter: ");
    let s = concat(s.as_str(), source.state.as_str());
    let s = concat(s.as_str(), "\nlabels: ");
    let s = concat(s.as_str(), labels.as_str());
    let s = concat(s.as_str(), "\ncustom filter: ");
    let s = concat(s.as_str(), filter.as_str());
    let s = concat(s.as_str(), "\ncredentials: ");
    concat(s.as_str(), credentials)
}

/// What the source page shows for `sources` with the cursor at `index`: a
/// row per source, only the selected one (`index`, or the last source when
/// `index` is past the end) marked, and that source's settings in the detail
/// pane; with no sources, a single hint row and a hint in the pane.
pub fn task_sources_view(sources: &[TaskSourceModel], index: usize) -> (r: TaskSourcesView)
    ensures
        sources@.len() == 0 ==> r.rows@.len() == 1 && r.rows@[0]@ == no_sources_row()
            && r.detail@ == no_source_detail(),
        sources@.len() > 0 ==> {
            let sel = selected_source(index as int, sources@.len() as int);
            &&& r.rows@.len() == sources@.len()
            &&& forall|i: int|
                0 <= i < sources@.len() ==> #[trigger] r.rows@[i]@ == spec_source_row(
                    sources@[i],
                    i == sel,
                )
            &&& r.detail@ == spec_source_detail(sources@[sel])
        },
{
    if sources.len() == 0 {
        let mut rows: Vec<String> = Vec::new();
        rows.push(to_string("No sources configured · press a to add GitHub"));
        return TaskSourcesView {
            rows,
            detail: to_string(
                "Add a GitHub repository source to synchronize open issues into the local task list.",
            ),
        };
    }
    let sel = if index < sources.len() - 1 {
        index
    } else {
        sources.len() - 1
    };
    let mut rows: Vec<String> = Vec::new();
    let mut i: usize = 0;
    while i < sources.len()
        invariant
            i <= sources@.len(),
            sel == selected_source(index as int, sources@.len() as int),
            rows@.len() == i,
            forall|j: int|
                0 <= j < i ==> #[trigger] rows@[j]@ == spec_source_row(sources@[j], j == sel),
        decreases sources@.len() - i,
    {
        rows.push(source_row(&sources[i], i == sel));
        i += 1;
    }
    TaskSourcesView { rows, detail: source_detail(&sources[sel]) }
}

/// A source's token never reaches the page: two sources that differ only in
/// which token they hold show the same row and the same detail pane.
pub proof fn lemma_token_text_never_shown(a: TaskSourceModel, b: TaskSourceModel, selected: bool)
    requires
        a.repository@ == b.repository@,
        a.provider@ == b.provider@,
        a.state@ == b.state@,
        strs(a.labels@) == strs(b.labels@),
        a.filter is Some <==> b.filter is Some,
        a.filter is Some ==> a.filter->0@ == b.filter->0@,
        a.enabled == b.enabled,
        a.token is Some <==> b.token is Some,
    ensures
        spec_source_row(a, selected) == spec_source_row(b, selected),
        spec_source_detail(a) == spec_source_detail(b),
{
    assert(a.labels@.len() == strs(a.labels@).len());
    assert(b.labels@.len() == strs(b.labels@).len());
}

} // verus!
