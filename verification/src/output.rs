//! What is written out for each record.
//!
//! A record arrives as the text of a JSON object. Without a selection of
//! columns it is written as it stands. With one, the members whose names were
//! selected are kept, in their order, and written as a new object. A record
//! that is no JSON object, or one that cannot be written, gives a diagnostic
//! in place of a line of output, and the records after it are still written.

use crate::json::{json_of_bytes, json_text, lemma_object_view, members_view, Json, JsonView};
use crate::text::{
    contains_string, option_view, optional_string_views, result_view, string_views,
};
use vstd::prelude::*;
use vstd::string::StringExecFns;
use vstd::utf8::encode_utf8;

verus! {

/// Why a record gives no line of output.
#[derive(Debug, PartialEq, Eq)]
pub enum OutputError {
    /// The record is not the text of a JSON object.
    NotAnObject { record: String },
    /// The selected members could not be written as JSON.
    Unwritable { reason: String },
}

/// What an `OutputError` stands for.
pub enum OutputErrorView {
    NotAnObject { record: Seq<char> },
    Unwritable { reason: Seq<char> },
}

impl View for OutputError {
    type V = OutputErrorView;

    open spec fn view(&self) -> OutputErrorView {
        match self {
            OutputError::NotAnObject { record } => OutputErrorView::NotAnObject { record: record@ },
            OutputError::Unwritable { reason } => OutputErrorView::Unwritable { reason: reason@ },
        }
    }
}

/// The diagnostic that tells of an error.
pub open spec fn diagnostic(error: OutputErrorView) -> Seq<char> {
    match error {
        OutputErrorView::NotAnObject { record } => "Error parsing JSON object: "@ + record,
        OutputErrorView::Unwritable { reason } => "Unable to display record: "@ + reason,
    }
}

impl OutputError {
    /// The diagnostic that tells of this error.
    pub fn message(&self) -> (text: String)
        ensures
            text@ == diagnostic(self@),
    {
        match self {
            OutputError::NotAnObject { record } => {
                let mut text = "Error parsing JSON object: ".to_owned();
                text.append(record.as_str());
                text
            },
            OutputError::Unwritable { reason } => {
                let mut text = "Unable to display record: ".to_owned();
                text.append(reason.as_str());
                text
            },
        }
    }
}

/// The members whose names are among `columns`, in their order.
pub open spec fn selected(members: Seq<(Seq<char>, JsonView)>, columns: Seq<Seq<char>>) -> Seq<
    (Seq<char>, JsonView),
> {
    members.filter(|m: (Seq<char>, JsonView)| columns.contains(m.0))
}

/// The object that is left of `value` when only the members named in
/// `columns` are kept; nothing where `value` is no object.
pub open spec fn projected(value: JsonView, columns: Seq<Seq<char>>) -> Option<JsonView> {
    match value {
        JsonView::Object(members) => Some(JsonView::Object(selected(members, columns))),
        _ => None,
    }
}

/// The line that comes of an attempt to write an object.
pub open spec fn line_of(rendered: Result<Seq<char>, Seq<char>>) -> Result<
    Seq<char>,
    OutputErrorView,
> {
    match rendered {
        Ok(text) => Ok(text),
        Err(reason) => Err(OutputErrorView::Unwritable { reason }),
    }
}

/// What is written for a record that reads as `parsed`, with a selection.
pub open spec fn written_selection(
    record: Seq<char>,
    parsed: Result<JsonView, Seq<char>>,
    columns: Seq<Seq<char>>,
) -> Result<Seq<char>, OutputErrorView> {
    match parsed {
        Ok(value) => match projected(value, columns) {
            Some(object) => line_of(json_text(object)),
            None => Err(OutputErrorView::NotAnObject { record }),
        },
        Err(_) => Err(OutputErrorView::NotAnObject { record }),
    }
}

/// What is written for `record`: the record itself without a selection, else
/// the object of its selected members.
pub open spec fn written(record: Seq<char>, columns: Option<Seq<Seq<char>>>) -> Result<
    Seq<char>,
    OutputErrorView,
> {
    match columns {
        None => Ok(record),
        Some(names) => written_selection(record, json_of_bytes(encode_utf8(record)), names),
    }
}

/// The names of the members, in their order.
pub open spec fn member_names(members: Seq<(Seq<char>, JsonView)>) -> Seq<Seq<char>> {
    Seq::new(members.len(), |i: int| members[i].0)
}

/// A projection holds the members that were selected and no others: a member
/// is kept exactly if it is a member of the record whose name is among the
/// columns. So every name that is left is one of the columns.
pub proof fn lemma_selected_members(
    members: Seq<(Seq<char>, JsonView)>,
    columns: Seq<Seq<char>>,
)
    ensures
        selected(members, columns).len() <= members.len(),
        forall|m: (Seq<char>, JsonView)|
            selected(members, columns).contains(m) <==> members.contains(m) && columns.contains(
                m.0,
            ),
        forall|i: int|
            0 <= i < selected(members, columns).len() ==> columns.contains(
                #[trigger] member_names(selected(members, columns))[i],
            ),
{
    let pred = |m: (Seq<char>, JsonView)| columns.contains(m.0);
    let kept = members.filter(pred);
    members.lemma_filter_len(pred);
    assert forall|m: (Seq<char>, JsonView)|
        kept.contains(m) <==> members.contains(m) && columns.contains(m.0) by {
        if kept.contains(m) {
            let i = choose|i: int| 0 <= i < kept.len() && kept[i] == m;
            members.lemma_filter_pred(pred, i);
            members.lemma_filter_contains_rev(pred, m);
        }
        if members.contains(m) && columns.contains(m.0) {
            let i = choose|i: int| 0 <= i < members.len() && members[i] == m;
            members.lemma_filter_contains(pred, i);
        }
    }
    assert forall|i: int| 0 <= i < kept.len() implies columns.contains(
        #[trigger] member_names(kept)[i],
    ) by {
        members.lemma_filter_pred(pred, i);
    }
}

/// Names that no member bears do not matter to a projection: a selection
/// gives what its names that occur in the record give.
pub proof fn lemma_selection_by_present_names(
    members: Seq<(Seq<char>, JsonView)>,
    columns: Seq<Seq<char>>,
)
    ensures
        selected(members, columns) == selected(
            members,
            columns.filter(|name: Seq<char>| member_names(members).contains(name)),
        ),
{
    let present = |name: Seq<char>| member_names(members).contains(name);
    let narrowed = columns.filter(present);
    let wide = |m: (Seq<char>, JsonView)| columns.contains(m.0);
    let narrow = |m: (Seq<char>, JsonView)| narrowed.contains(m.0);
    assert forall|i: int| 0 <= i < members.len() implies wide(#[trigger] members[i]) == narrow(
        members[i],
    ) by {
        let name = members[i].0;
        assert(member_names(members)[i] == name);
        if columns.contains(name) {
            let k = choose|k: int| 0 <= k < columns.len() && columns[k] == name;
            columns.lemma_filter_contains(present, k);
        }
        if narrowed.contains(name) {
            columns.lemma_filter_contains_rev(present, name);
        }
    }
    lemma_filter_agrees(members, wide, narrow);
}

/// Two tests that agree on every element keep the same elements.
proof fn lemma_filter_agrees<A>(s: Seq<A>, p: spec_fn(A) -> bool, q: spec_fn(A) -> bool)
    requires
        forall|i: int| 0 <= i < s.len() ==> p(#[trigger] s[i]) == q(s[i]),
    ensures
        s.filter(p) == s.filter(q),
    decreases s.len(),
{
    reveal(Seq::filter);
    if s.len() > 0 {
        assert forall|i: int| 0 <= i < s.drop_last().len() implies p(#[trigger] s.drop_last()[i])
            == q(s.drop_last()[i]) by {
            assert(s.drop_last()[i] == s[i]);
        }
        lemma_filter_agrees(s.drop_last(), p, q);
        assert(p(s[s.len() - 1]) == q(s[s.len() - 1]));
    }
}

/// Keeps the members whose names are among `columns`.
pub fn select_members(members: Vec<(String, Json)>, columns: &Vec<String>) -> (kept: Vec<
    (String, Json),
>)
    ensures
        members_view(kept@) == selected(members_view(members@), string_views(columns@)),
{
    let ghost all = members_view(members@);
    let ghost names = string_views(columns@);
    let ghost pred = |m: (Seq<char>, JsonView)| names.contains(m.0);
    let mut kept: Vec<(String, Json)> = Vec::new();
    assert(all.take(0).filter(pred) =~= members_view(kept@)) by {
        reveal(Seq::filter);
    }
    for member in it: members
        invariant
            it.seq() == members@,
            all == members_view(members@),
            names == string_views(columns@),
            pred == (|m: (Seq<char>, JsonView)| names.contains(m.0)),
            members_view(kept@) == all.take(it.index()).filter(pred),
    {
        proof {
            let i = it.index();
            all.take(i).lemma_filter_push(all[i], pred);
            assert(all.take(i).push(all[i]) =~= all.take(i + 1));
        }
        if contains_string(columns, &member.0) {
            let ghost before = members_view(kept@);
            kept.push(member);
            assert(members_view(kept@) =~= before.push(all[it.index()]));
        }
    }
    assert(all.take(members@.len() as int) =~= all);
    kept
}

/// Keeps the members of an object whose names are among `columns`. Anything
/// but an object has no members to keep.
pub fn project_value(value: Json, columns: &Vec<String>) -> (r: Option<Json>)
    ensures
        option_view(r) == projected(value@, string_views(columns@)),
{
    match value {
        Json::Object(members) => {
            proof {
                lemma_object_view(members);
            }
            let kept = select_members(members, columns);
            proof {
                lemma_object_view(kept);
            }
            Some(Json::Object(kept))
        },
        _ => None,
    }
}

/// The line that comes of an attempt to write an object: the text, or the
/// error that tells why there is none.
pub fn written_line(rendered: Result<String, String>) -> (line: Result<String, OutputError>)
    ensures
        result_view(line) == line_of(result_view(rendered)),
{
    match rendered {
        Ok(text) => Ok(text),
        Err(reason) => Err(OutputError::Unwritable { reason }),
    }
}

/// What is written for a record that was read as `parsed`, when `columns`
/// were selected.
pub fn write_selection(record: &str, parsed: Result<Json, String>, columns: &Vec<String>) -> (line:
    Result<String, OutputError>)
    ensures
        result_view(line) == written_selection(
            record@,
            result_view(parsed),
            string_views(columns@),
        ),
{
    let value = match parsed {
        Ok(value) => value,
        Err(_) => {
            return Err(OutputError::NotAnObject { record: record.to_owned() });
        },
    };
    match project_value(value, columns) {
        Some(object) => written_line(object.to_text()),
        None => Err(OutputError::NotAnObject { record: record.to_owned() }),
    }
}

/// What is written for one record.
pub fn project(record: &str, columns: &Option<Vec<String>>) -> (line: Result<String, OutputError>)
    ensures
        result_view(line) == written(record@, optional_string_views(*columns)),
{
    match columns {
        None => Ok(record.to_owned()),
        Some(names) => write_selection(record, Json::parse(record.as_bytes()), names),
    }
}

/// What is written for each of the records, in their order. An error for one
/// record leaves the others as they are.
pub fn project_records(records: &Vec<String>, columns: &Option<Vec<String>>) -> (lines: Vec<
    Result<String, OutputError>,
>)
    ensures
        lines.len() == records.len(),
        forall|i: int|
            0 <= i < records.len() ==> result_view(#[trigger] lines@[i]) == written(
                records@[i]@,
                optional_string_views(*columns),
            ),
{
    let mut lines: Vec<Result<String, OutputError>> = Vec::new();
    let mut i: usize = 0;
    while i < records.len()
        invariant
            i <= records.len(),
            lines.len() == i,
            forall|j: int|
                0 <= j < i ==> result_view(#[trigger] lines@[j]) == written(
                    records@[j]@,
                    optional_string_views(*columns),
                ),
        decreases records.len() - i,
    {
        lines.push(project(records[i].as_str(), columns));
        i = i + 1;
    }
    lines
}

} // verus!
