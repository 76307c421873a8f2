//! The expression of a whole trigger point: its groups in ascending order,
//! joined by the connectives of the document's normal form.

use crate::groups::{
    ascending, group_ids, group_keys, has_group, in_group, lemma_group_ids_characterized,
    lemma_group_ids_ignore_document_order, lemma_group_in_use_has_members, members,
};
use crate::model::{views_of, SptView, TriggerPoint, TriggerPointView, SPT};
use crate::phrase::phrase;
use crate::text::{join, joined};
use vstd::prelude::*;

verus! {

/// The connective between the conditions of one group: "or" in conjunctive
/// normal form, an AND of OR-groups, and "and" in disjunctive normal form, an
/// OR of AND-groups.
pub open spec fn intra_connective(is_cnf: bool) -> Seq<char> {
    if is_cnf {
        "or"@
    } else {
        "and"@
    }
}

/// The connective between groups: what stands inside the groups of the other
/// normal form.
pub open spec fn inter_connective(is_cnf: bool) -> Seq<char> {
    intra_connective(!is_cnf)
}

/// What stands between two conditions of a group: the connective on a line of
/// its own, indented by two spaces.
pub open spec fn intra_separator(is_cnf: bool) -> Seq<char> {
    "\n  "@ + intra_connective(is_cnf) + "\n"@
}

/// What stands between two groups: the connective on a line of its own.
pub open spec fn inter_separator(is_cnf: bool) -> Seq<char> {
    "\n"@ + inter_connective(is_cnf) + "\n"@
}

/// The line of a condition: its phrase in parentheses, indented by two
/// spaces.
pub open spec fn line(c: SptView) -> Seq<char> {
    "  ("@ + phrase(c) + ")"@
}

/// The lines of the given conditions, in the same order.
pub open spec fn lines_of(conditions: Seq<SptView>) -> Seq<Seq<char>> {
    conditions.map_values(|c: SptView| line(c))
}

/// A group's block: the lines of its conditions in document order, joined by
/// the connective inside groups, between a line that opens the group and one
/// that closes it.
pub open spec fn block(conditions: Seq<SptView>, group: u8, is_cnf: bool) -> Seq<char> {
    "(\n"@ + joined(lines_of(members(conditions, group)), intra_separator(is_cnf)) + "\n)"@
}

/// The blocks of the given groups, in the same order.
pub open spec fn blocks_of(conditions: Seq<SptView>, groups: Seq<u8>, is_cnf: bool) -> Seq<
    Seq<char>,
> {
    groups.map_values(|g: u8| block(conditions, g, is_cnf))
}

/// The expression of a trigger point: the blocks of the groups in use, in
/// ascending order of the group number, joined by the connective between
/// groups. A document without conditions has the empty expression.
pub open spec fn rendering(doc: TriggerPointView) -> Seq<char> {
    joined(
        blocks_of(doc.conditions, group_ids(doc.conditions), doc.is_cnf),
        inter_separator(doc.is_cnf),
    )
}

/// A failure of rendering. Rendering is total, so the type has no value; it
/// is there so that [`render`] keeps its signature should documents be
/// validated one day.
pub type RenderError = core::convert::Infallible;

/// The document could not be read as a trigger point. Nothing more is told.
#[derive(Clone, Copy, Debug, PartialEq, Eq, Structural)]
pub struct ParseError;

/// What goes wrong at the boundary.
#[derive(Clone, Copy, Debug, PartialEq, Eq, Structural)]
pub enum FormatError {
    /// The text is not a trigger point document.
    MalformedDocument,
}

impl FormatError {
    /// The message shown for the error.
    pub fn message(&self) -> (text: String)
        ensures
            text@ == "failed to parse"@,
    {
        "failed to parse".to_owned()
    }
}

/// The separators as they are written out, for each normal form.
proof fn lemma_separator_text()
    ensures
        intra_separator(true) == "\n  or\n"@,
        intra_separator(false) == "\n  and\n"@,
        inter_separator(true) == "\nand\n"@,
        inter_separator(false) == "\nor\n"@,
{
    reveal_strlit("\n  ");
    reveal_strlit("\n");
    reveal_strlit("or");
    reveal_strlit("and");
    reveal_strlit("\n  or\n");
    reveal_strlit("\n  and\n");
    reveal_strlit("\nand\n");
    reveal_strlit("\nor\n");
    assert("\n  or\n"@ =~= intra_separator(true));
    assert("\n  and\n"@ =~= intra_separator(false));
    assert("\nand\n"@ =~= inter_separator(true));
    assert("\nor\n"@ =~= inter_separator(false));
}

/// What stands between two conditions of a group.
fn intra_sep(is_cnf: bool) -> (sep: &'static str)
    ensures
        sep@ == intra_separator(is_cnf),
{
    proof {
        lemma_separator_text();
    }
    if is_cnf {
        "\n  or\n"
    } else {
        "\n  and\n"
    }
}

/// What stands between two groups.
fn inter_sep(is_cnf: bool) -> (sep: &'static str)
    ensures
        sep@ == inter_separator(is_cnf),
{
    proof {
        lemma_separator_text();
    }
    if is_cnf {
        "\nand\n"
    } else {
        "\nor\n"
    }
}

/// Renders the block of one group.
pub fn render_group(spts: &Vec<SPT>, group: u8, is_cnf: bool) -> (text: String)
    ensures
        text@ == block(views_of(spts@), group, is_cnf),
{
    let ghost conditions = views_of(spts@);
    let mut lines: Vec<String> = Vec::new();
    let mut i: usize = 0;
    assert(conditions.take(0) =~= Seq::<SptView>::empty());
    assert(lines.deep_view() =~= lines_of(members(conditions.take(0), group))) by {
        reveal(Seq::filter);
    }
    while i < spts.len()
        invariant
            i <= spts.len(),
            conditions == views_of(spts@),
            lines.deep_view() == lines_of(members(conditions.take(i as int), group)),
        decreases spts.len() - i,
    {
        let ghost before = lines.deep_view();
        proof {
            let seen = conditions.take(i as int);
            assert(conditions.take(i + 1) =~= seen.push(conditions[i as int]));
            seen.lemma_filter_push(conditions[i as int], in_group(group));
        }
        if spts[i].group == group {
            let mut text = "  (".to_owned();
            text.append(spts[i].to_english().as_str());
            text.append(")");
            lines.push(text);
            assert(lines.deep_view() =~= before.push(line(conditions[i as int])));
            assert(lines.deep_view() =~= lines_of(members(conditions.take(i + 1), group)));
        }
        i += 1;
    }
    proof {
        assert(conditions.take(i as int) =~= conditions);
    }
    let mut text = "(\n".to_owned();
    text.append(join(&lines, intra_sep(is_cnf)).as_str());
    text.append("\n)");
    text
}

impl TriggerPoint {
    /// Writes the trigger point as a nested boolean expression in English.
    pub fn to_english(&self) -> (text: String)
        ensures
            text@ == rendering(self@),
    {
        let is_cnf = self.is_cnf();
        let keys = group_keys(&self.spts);
        let ghost conditions = self@.conditions;
        let mut rendered: Vec<String> = Vec::new();
        let mut k: usize = 0;
        assert(rendered.deep_view() =~= blocks_of(conditions, keys@.take(0), is_cnf));
        while k < keys.len()
            invariant
                k <= keys.len(),
                conditions == views_of(self.spts@),
                rendered.deep_view() == blocks_of(conditions, keys@.take(k as int), is_cnf),
            decreases keys.len() - k,
        {
            let ghost before = rendered.deep_view();
            rendered.push(render_group(&self.spts, keys[k], is_cnf));
            proof {
                assert(keys@.take(k + 1) =~= keys@.take(k as int).push(keys@[k as int]));
                assert(rendered.deep_view() =~= before.push(
                    block(conditions, keys@[k as int], is_cnf),
                ));
                assert(rendered.deep_view() =~= blocks_of(conditions, keys@.take(k + 1), is_cnf));
            }
            k += 1;
        }
        proof {
            assert(keys@.take(k as int) =~= keys@);
        }
        join(&rendered, inter_sep(is_cnf))
    }
}

/// Renders the trigger point as a nested boolean expression. Rendering never
/// fails.
pub fn render(doc: &TriggerPoint) -> (result: Result<String, RenderError>)
    ensures
        result matches Ok(text) && text@ == rendering(doc@),
{
    Ok(doc.to_english())
}

/// Turns the outcome of reading a document into what the host shows: the
/// expression of a document that was read, the one error otherwise.
pub fn format(parsed: Result<TriggerPoint, ParseError>) -> (result: Result<String, FormatError>)
    ensures
        parsed matches Ok(doc) ==> (result matches Ok(text) && text@ == rendering(doc@)),
        parsed is Err ==> result == Err::<String, FormatError>(FormatError::MalformedDocument),
{
    match parsed {
        Ok(doc) => Ok(doc.to_english()),
        Err(_) => Err(FormatError::MalformedDocument),
    }
}

/// Rendering is deterministic: the expression is a function of what the
/// document says. Rendering the same document again, or one that says the
/// same, gives the same text, character for character.
pub proof fn lemma_render_deterministic(
    doc: TriggerPoint,
    again: TriggerPoint,
    first: String,
    second: String,
)
    requires
        again@ == doc@,
        first@ == rendering(doc@),
        second@ == rendering(again@),
    ensures
        first@ == second@,
{
}

/// The groups come out in ascending order of their number: whatever the
/// order of the conditions in the document, the expression is the blocks of
/// the distinct group numbers in ascending order, joined by the connective
/// between groups.
pub proof fn lemma_rendering_in_group_order(doc: TriggerPointView, keys: Seq<u8>)
    requires
        ascending(keys),
        forall|g: u8| keys.contains(g) <==> has_group(doc.conditions, g),
    ensures
        rendering(doc) == joined(
            blocks_of(doc.conditions, keys, doc.is_cnf),
            inter_separator(doc.is_cnf),
        ),
{
    lemma_group_ids_characterized(doc.conditions, keys);
}

/// The order of the conditions in the document matters only inside a group:
/// two documents of the same normal form whose groups have the same members
/// in the same order have the same expression.
pub proof fn lemma_rendering_ignores_order_across_groups(a: TriggerPointView, b: TriggerPointView)
    requires
        a.is_cnf == b.is_cnf,
        forall|g: u8| members(a.conditions, g) == members(b.conditions, g),
    ensures
        rendering(a) == rendering(b),
{
    assert forall|g: u8| has_group(a.conditions, g) <==> has_group(b.conditions, g) by {
        lemma_group_in_use_has_members(a.conditions, g);
        lemma_group_in_use_has_members(b.conditions, g);
    }
    lemma_group_ids_ignore_document_order(a.conditions, b.conditions);
    let keys = group_ids(a.conditions);
    assert(blocks_of(a.conditions, keys, a.is_cnf) =~= blocks_of(b.conditions, keys, b.is_cnf));
}

/// The two normal forms are dual. Where the marker of the conjunctive form is
/// present, conditions of a group are joined by "or" and groups by "and";
/// where it is absent, conditions are joined by "and" and groups by "or".
pub proof fn lemma_mode_duality(doc: TriggerPoint)
    ensures
        doc.condition_type_cnf is Some ==> intra_connective(doc@.is_cnf) == "or"@,
        doc.condition_type_cnf is Some ==> inter_connective(doc@.is_cnf) == "and"@,
        doc.condition_type_cnf is Some ==> intra_separator(doc@.is_cnf) == "\n  or\n"@,
        doc.condition_type_cnf is Some ==> inter_separator(doc@.is_cnf) == "\nand\n"@,
        doc.condition_type_cnf is None ==> intra_connective(doc@.is_cnf) == "and"@,
        doc.condition_type_cnf is None ==> inter_connective(doc@.is_cnf) == "or"@,
        doc.condition_type_cnf is None ==> intra_separator(doc@.is_cnf) == "\n  and\n"@,
        doc.condition_type_cnf is None ==> inter_separator(doc@.is_cnf) == "\nor\n"@,
        intra_connective(doc@.is_cnf) != inter_connective(doc@.is_cnf),
{
    lemma_separator_text();
    reveal_strlit("or");
    reveal_strlit("and");
    assert("or"@.len() != "and"@.len());
}

} // verus!
