//! Putting the result together: the declaration without its directives and
//! the verification routine.

use vstd::prelude::*;
use crate::directive::{
    directive_count, lemma_directives_in_order, lemma_directives_located, size_directive, structure_directives,
    total_directives,
};
use crate::error::ExpandError;
use crate::literal::{integer_literal, is_literal_word};
use crate::model::{Attribute, AttributeView, Field, FieldView, Structure, StructureView};
use crate::synth::{lemma_checks_follow_directives, routine_for, Routine, RoutineView};
use crate::text::{lemma_position_bounds, position, split_once, trimmed};

verus! {

/// What the expansion of one declaration produces.
#[derive(Debug, Clone, PartialEq, Eq)]
pub struct Expansion {
    /// The declaration, its layout directives removed.
    pub structure: Structure,
    /// The routine that checks the declared layout.
    pub routine: Routine,
}

/// The mathematical value of an [`Expansion`].
pub ghost struct ExpansionView {
    pub structure: StructureView,
    pub routine: RoutineView,
}

impl View for Expansion {
    type V = ExpansionView;

    open spec fn view(&self) -> ExpansionView {
        ExpansionView { structure: self.structure@, routine: self.routine@ }
    }
}

/// `attrs` without the layout directives; the rest keeps its order.
pub open spec fn stripped(attrs: Seq<AttributeView>) -> Seq<AttributeView> {
    attrs.filter(|a: AttributeView| !a.is_directive())
}

/// `field` with its layout directives removed and all else as written.
pub open spec fn cleaned_field(field: FieldView) -> FieldView {
    FieldView { attrs: stripped(field.attrs), ..field }
}

/// `structure` with the layout directives removed from every field and all
/// else as written.
pub open spec fn cleaned(structure: StructureView) -> StructureView {
    StructureView {
        fields: structure.fields.map_values(|f: FieldView| cleaned_field(f)),
        ..structure
    }
}

/// What the expansion of `structure` with the argument text `args` yields,
/// or the error that stops it: the size directive is read first, then the
/// range directives, then the checks are built.
pub open spec fn expansion_of(args: Seq<char>, structure: StructureView) -> Result<
    ExpansionView,
    ExpandError,
> {
    match size_directive(args) {
        Err(e) => Err(e),
        Ok(size) => match structure_directives(structure.fields) {
            Err(e) => Err(e),
            Ok(directives) => match routine_for(structure, directives, size) {
                Err(e) => Err(e),
                Ok(routine) => Ok(ExpansionView { structure: cleaned(structure), routine }),
            },
        },
    }
}

/// Without an equals sign in the argument text there is no size directive,
/// and the expansion fails whatever the structure holds.
pub proof fn lemma_missing_size_fails(args: Seq<char>, structure: StructureView)
    requires
        !args.contains('='),
    ensures
        expansion_of(args, structure) == Err::<ExpansionView, ExpandError>(
            ExpandError::UnexpectedMetaItem,
        ),
{
    lemma_position_bounds(args, '=');
    if position(args, '=') < args.len() {
        assert(args.contains(args[position(args, '=')]));
    }
}

/// A value for `size` that is not an integer literal makes the expansion
/// fail whatever the structure holds; so does, in particular, a value that
/// does not even have the shape of one, such as a quoted string.
pub proof fn lemma_non_integer_size_fails(args: Seq<char>, structure: StructureView)
    requires
        split_once(args, '=') is Some,
        integer_literal(split_once(args, '=')->Some_0.1) is None || !is_literal_word(
            trimmed(split_once(args, '=')->Some_0.1),
        ),
    ensures
        expansion_of(args, structure) is Err,
{
}

/// An expansion holds one check for each layout directive of the structure,
/// and each check is about a field that carries a directive: a field without
/// one is never checked. The checks follow the declaration: the field index
/// never decreases from one check to the next.
pub proof fn lemma_one_check_per_directive(args: Seq<char>, structure: StructureView)
    requires
        structure.fields.len() <= usize::MAX,
        expansion_of(args, structure) is Ok,
    ensures
        expansion_of(args, structure)->Ok_0.routine.checks.len() == total_directives(
            structure.fields,
        ),
        forall|k: int|
            0 <= k < expansion_of(args, structure)->Ok_0.routine.checks.len() ==> {
                let check = #[trigger] expansion_of(args, structure)->Ok_0.routine.checks[k];
                check.field < structure.fields.len() && directive_count(
                    structure.fields[check.field as int].attrs,
                ) > 0
            },
        forall|j: int, k: int|
            0 <= j <= k < expansion_of(args, structure)->Ok_0.routine.checks.len() ==> (
            #[trigger] expansion_of(args, structure)->Ok_0.routine.checks[j]).field <= (
            #[trigger] expansion_of(args, structure)->Ok_0.routine.checks[k]).field,
{
    let directives = structure_directives(structure.fields)->Ok_0;
    lemma_directives_located(structure.fields);
    lemma_directives_in_order(structure.fields);
    lemma_checks_follow_directives(structure, directives);
}

/// Stripping removes nothing else: attributes without a directive among them
/// come out unchanged.
pub proof fn lemma_strip_keeps_plain(attrs: Seq<AttributeView>)
    requires
        forall|i: int| 0 <= i < attrs.len() ==> !(#[trigger] attrs[i]).is_directive(),
    ensures
        stripped(attrs) == attrs,
    decreases attrs.len(),
{
    reveal(Seq::filter);
    if attrs.len() > 0 {
        let rest = attrs.drop_last();
        assert forall|i: int| 0 <= i < rest.len() implies !(#[trigger] rest[i]).is_directive() by {
            assert(rest[i] == attrs[i]);
        }
        lemma_strip_keeps_plain(rest);
        assert(!attrs.last().is_directive());
        assert(rest.push(attrs.last()) =~= attrs);
    } else {
        assert(stripped(attrs) =~= attrs);
    }
}

/// Stripping removes exactly the directives: none is left, every other
/// attribute is still there, nothing new appears, and stripping a second
/// time changes nothing.
pub proof fn lemma_strip_exact(attrs: Seq<AttributeView>)
    ensures
        forall|i: int|
            0 <= i < stripped(attrs).len() ==> !(#[trigger] stripped(attrs)[i]).is_directive(),
        forall|i: int|
            0 <= i < attrs.len() && !attrs[i].is_directive() ==> stripped(attrs).contains(
                #[trigger] attrs[i],
            ),
        forall|i: int|
            0 <= i < stripped(attrs).len() ==> attrs.contains(#[trigger] stripped(attrs)[i]),
        stripped(stripped(attrs)) == stripped(attrs),
{
    let keep = |a: AttributeView| !a.is_directive();
    let out = stripped(attrs);
    assert forall|i: int| 0 <= i < out.len() implies !(#[trigger] out[i]).is_directive() by {
        attrs.lemma_filter_pred(keep, i);
    }
    assert forall|i: int| 0 <= i < attrs.len() && !attrs[i].is_directive() implies out.contains(
        #[trigger] attrs[i],
    ) by {
        attrs.lemma_filter_contains(keep, i);
    }
    assert forall|i: int| 0 <= i < out.len() implies attrs.contains(#[trigger] out[i]) by {
        attrs.lemma_filter_contains_rev(keep, out[i]);
    }
    lemma_strip_keeps_plain(out);
}

/// Stripping works attribute by attribute and keeps the order: a directive
/// alone gives nothing, any other attribute alone gives itself, and two
/// lists joined give their stripped lists joined.
pub proof fn lemma_strip_in_order(a: Seq<AttributeView>, b: Seq<AttributeView>, x: AttributeView)
    ensures
        stripped(Seq::<AttributeView>::empty()) == Seq::<AttributeView>::empty(),
        stripped(seq![x]) == if x.is_directive() {
            Seq::<AttributeView>::empty()
        } else {
            seq![x]
        },
        stripped(a + b) == stripped(a) + stripped(b),
{
    let keep = |a: AttributeView| !a.is_directive();
    Seq::filter_distributes_over_add(a, b, keep);
    reveal_with_fuel(Seq::filter, 2);
    assert(seq![x].drop_last() =~= Seq::<AttributeView>::empty());
    assert(seq![x].last() == x);
    assert(Seq::<AttributeView>::empty().push(x) =~= seq![x]);
}

/// Cleaning a field touches its attributes only, and cleaning a structure
/// touches its fields only: names, types, visibility and the structure's own
/// attributes stay as written, and a second cleaning changes nothing.
pub proof fn lemma_cleaning_preserves(structure: StructureView)
    ensures
        cleaned(structure).attrs == structure.attrs,
        cleaned(structure).vis == structure.vis,
        cleaned(structure).ident == structure.ident,
        cleaned(structure).fields.len() == structure.fields.len(),
        forall|i: int|
            #![trigger cleaned(structure).fields[i]]
            0 <= i < structure.fields.len() ==> {
                let field = cleaned(structure).fields[i];
                &&& field.vis == structure.fields[i].vis
                &&& field.ident == structure.fields[i].ident
                &&& field.ty == structure.fields[i].ty
                &&& field.attrs == stripped(structure.fields[i].attrs)
            },
        cleaned(cleaned(structure)) == cleaned(structure),
{
    let once = cleaned(structure);
    let twice = cleaned(once);
    assert forall|i: int| 0 <= i < once.fields.len() implies twice.fields[i] == once.fields[i] by {
        lemma_strip_exact(structure.fields[i].attrs);
    }
    assert(twice.fields =~= once.fields);
}

/// Removes the layout directives from a list of attributes.
pub fn strip_directives(attrs: &Vec<Attribute>) -> (r: Vec<Attribute>)
    ensures
        r@.map_values(|a: Attribute| a@) == stripped(attrs@.map_values(|a: Attribute| a@)),
{
    let mut kept: Vec<Attribute> = Vec::new();
    let n: usize = attrs.len();
    let mut i: usize = 0;
    let ghost all = attrs@.map_values(|a: Attribute| a@);
    proof {
        reveal(Seq::filter);
        assert(stripped(all.take(0)) =~= kept@.map_values(|a: Attribute| a@));
    }
    while i < n
        invariant
            i <= n,
            n == attrs@.len(),
            all == attrs@.map_values(|a: Attribute| a@),
            kept@.map_values(|a: Attribute| a@) == stripped(all.take(i as int)),
        decreases n - i,
    {
        proof {
            reveal(Seq::filter);
            assert(all.take(i as int + 1).drop_last() =~= all.take(i as int));
            assert(all.take(i as int + 1).last() == attrs@[i as int]@);
        }
        if !attrs[i].is_layout_directive() {
            let ghost before = kept@.map_values(|a: Attribute| a@);
            let copy = attrs[i].duplicate();
            kept.push(copy);
            proof {
                assert(kept@.map_values(|a: Attribute| a@) =~= before.push(copy@));
            }
        }
        i = i + 1;
    }
    proof {
        assert(all.take(n as int) =~= all);
    }
    kept
}

/// Copies a field, leaving out its layout directives.
pub fn clean_field(field: &Field) -> (r: Field)
    ensures
        r@ == cleaned_field(field@),
{
    let ident: Option<String> = match &field.ident {
        Some(name) => Some(name.clone()),
        None => None,
    };
    Field { attrs: strip_directives(&field.attrs), vis: field.vis.clone(), ident, ty: field.ty.clone() }
}

/// Removes the layout directives from every field of a declaration.
pub fn clean_structure(structure: Structure) -> (r: Structure)
    ensures
        r@ == cleaned(structure@),
{
    let mut fields: Vec<Field> = Vec::new();
    let n: usize = structure.fields.len();
    let mut i: usize = 0;
    while i < n
        invariant
            i <= n,
            n == structure.fields@.len(),
            fields@.len() == i,
            forall|k: int| 0 <= k < i ==> (#[trigger] fields@[k])@ == cleaned_field(
                structure.fields@[k]@,
            ),
        decreases n - i,
    {
        let field = clean_field(&structure.fields[i]);
        fields.push(field);
        i = i + 1;
    }
    proof {
        assert(fields@.map_values(|f: Field| f@) =~= cleaned(structure@).fields);
    }
    Structure { attrs: structure.attrs, vis: structure.vis, ident: structure.ident, fields }
}

} // verus!
