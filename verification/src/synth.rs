//! Building the verification routine: one check per range directive, in
//! declaration order, and the check of the structure's size.

use vstd::prelude::*;
use vstd::string::*;
use crate::directive::{Located, Range};
use crate::error::ExpandError;
use crate::model::{Structure, StructureView};

verus! {

/// The check that one field occupies the declared range of bytes.
#[derive(Debug, Clone, PartialEq, Eq)]
pub struct Check {
    /// The index of the field in the declaration.
    pub field: usize,
    /// What a failure reports: structure, field and the field's type.
    pub label: String,
    pub range: Range,
}

/// The mathematical value of a [`Check`].
pub ghost struct CheckView {
    pub field: usize,
    pub label: Seq<char>,
    pub range: Range,
}

impl View for Check {
    type V = CheckView;

    open spec fn view(&self) -> CheckView {
        CheckView { field: self.field, label: self.label@, range: self.range }
    }
}

/// The verification routine of one structure.
#[derive(Debug, Clone, PartialEq, Eq)]
pub struct Routine {
    /// The routine's name.
    pub name: String,
    /// The name of the structure that it checks.
    pub structure: String,
    /// The field checks, in the order in which they run.
    pub checks: Vec<Check>,
    /// The declared size of the structure, checked last.
    pub size: u64,
}

/// The mathematical value of a [`Routine`].
pub ghost struct RoutineView {
    pub name: Seq<char>,
    pub structure: Seq<char>,
    pub checks: Seq<CheckView>,
    pub size: u64,
}

impl View for Routine {
    type V = RoutineView;

    open spec fn view(&self) -> RoutineView {
        RoutineView {
            name: self.name@,
            structure: self.structure@,
            checks: self.checks@.map_values(|c: Check| c@),
            size: self.size,
        }
    }
}

/// The label of a field check: `Structure.field (type)`.
pub open spec fn label_text(structure: Seq<char>, name: Seq<char>, ty: Seq<char>) -> Seq<char> {
    structure + "."@ + name + " ("@ + ty + ")"@
}

/// The name of the routine that checks the structure called `ident`.
pub open spec fn routine_name_text(ident: Seq<char>) -> Seq<char> {
    "structure_"@ + ident
}

/// The attributes under which the routine is written out: it exists in test
/// builds only, its name need not follow the naming convention for
/// functions, and it runs as a test.
pub open spec fn routine_attribute_texts() -> Seq<Seq<char>> {
    seq!["#[cfg(test)]"@, "#[allow(non_snake_case)]"@, "#[test]"@]
}

/// Whether every directive points at a field of the structure.
pub open spec fn in_bounds(directives: Seq<Located>, fields: int) -> bool {
    forall|k: int| 0 <= k < directives.len() ==> (#[trigger] directives[k]).field < fields
}

/// The check for one directive: a field without a name cannot be checked.
pub open spec fn check_for(structure: StructureView, d: Located) -> Result<CheckView, ExpandError>
    recommends
        d.field < structure.fields.len(),
{
    let field = structure.fields[d.field as int];
    match field.ident {
        Some(name) => Ok(
            CheckView {
                field: d.field,
                label: label_text(structure.ident, name, field.ty),
                range: d.range,
            },
        ),
        None => Err(ExpandError::TupleStruct { field: d.field }),
    }
}

/// The checks for `directives`, in their order; the first directive on a
/// field without a name is the error.
pub open spec fn checks_for(structure: StructureView, directives: Seq<Located>) -> Result<
    Seq<CheckView>,
    ExpandError,
>
    decreases directives.len(),
{
    if directives.len() == 0 {
        Ok(Seq::empty())
    } else {
        match checks_for(structure, directives.drop_last()) {
            Err(e) => Err(e),
            Ok(checks) => match check_for(structure, directives.last()) {
                Err(e) => Err(e),
                Ok(check) => Ok(checks.push(check)),
            },
        }
    }
}

/// The routine for a structure, its directives and its declared size.
pub open spec fn routine_for(structure: StructureView, directives: Seq<Located>, size: u64) -> Result<
    RoutineView,
    ExpandError,
> {
    match checks_for(structure, directives) {
        Err(e) => Err(e),
        Ok(checks) => Ok(
            RoutineView {
                name: routine_name_text(structure.ident),
                structure: structure.ident,
                checks,
                size,
            },
        ),
    }
}

/// Once a prefix of the directives holds one on a nameless field, every
/// longer prefix reports the same error.
pub proof fn lemma_check_error_persists(structure: StructureView, directives: Seq<Located>, k: int)
    requires
        0 <= k <= directives.len(),
        checks_for(structure, directives.take(k)) is Err,
    ensures
        checks_for(structure, directives) == checks_for(structure, directives.take(k)),
    decreases directives.len() - k,
{
    if k == directives.len() {
        assert(directives.take(k) =~= directives);
    } else {
        assert(directives.take(k + 1).drop_last() =~= directives.take(k));
        lemma_check_error_persists(structure, directives, k + 1);
    }
}

/// Each check stands for the directive at the same position: same field,
/// same range, and a label that names the structure, that field and its
/// type. So there are exactly as many checks as directives.
pub proof fn lemma_checks_follow_directives(structure: StructureView, directives: Seq<Located>)
    requires
        checks_for(structure, directives) is Ok,
    ensures
        checks_for(structure, directives)->Ok_0.len() == directives.len(),
        forall|k: int|
            0 <= k < directives.len() ==> {
                let check = #[trigger] checks_for(structure, directives)->Ok_0[k];
                let field = structure.fields[directives[k].field as int];
                &&& check.field == directives[k].field
                &&& check.range == directives[k].range
                &&& field.ident is Some
                &&& check.label == label_text(structure.ident, field.ident->Some_0, field.ty)
            },
    decreases directives.len(),
{
    if directives.len() > 0 {
        lemma_checks_follow_directives(structure, directives.drop_last());
        let all = checks_for(structure, directives)->Ok_0;
        let rest = checks_for(structure, directives.drop_last())->Ok_0;
        assert forall|k: int| 0 <= k < directives.len() implies {
            let check = #[trigger] all[k];
            let field = structure.fields[directives[k].field as int];
            &&& check.field == directives[k].field
            &&& check.range == directives[k].range
            &&& field.ident is Some
            &&& check.label == label_text(structure.ident, field.ident->Some_0, field.ty)
        } by {
            if k < directives.len() - 1 {
                assert(all[k] == rest[k]);
                assert(directives.drop_last()[k] == directives[k]);
            }
        }
    }
}

/// The only error that building the checks can raise is the one for a
/// directive on a field without a name, and it names such a field of the
/// structure.
pub proof fn lemma_check_errors(structure: StructureView, directives: Seq<Located>)
    requires
        in_bounds(directives, structure.fields.len() as int),
        checks_for(structure, directives) is Err,
    ensures
        match checks_for(structure, directives)->Err_0 {
            ExpandError::TupleStruct { field } => field < structure.fields.len()
                && structure.fields[field as int].ident is None,
            _ => false,
        },
        checks_for(structure, directives)->Err_0.message_text()
            == "Tuple structs are not supported"@,
    decreases directives.len(),
{
    if directives.len() > 0 {
        let rest = directives.drop_last();
        assert forall|k: int| 0 <= k < rest.len() implies (#[trigger] rest[k]).field
            < structure.fields.len() by {
            assert(rest[k] == directives[k]);
        }
        assert(directives.last() == directives[directives.len() - 1]);
        if checks_for(structure, rest) is Err {
            lemma_check_errors(structure, rest);
        }
    }
}

/// A directive on a field without a name stops the expansion, with the
/// message for tuple structures, attributed to a field of the structure
/// that has no name.
pub proof fn lemma_nameless_field_rejected(
    structure: StructureView,
    directives: Seq<Located>,
    k: int,
)
    requires
        in_bounds(directives, structure.fields.len() as int),
        0 <= k < directives.len(),
        structure.fields[directives[k].field as int].ident is None,
    ensures
        checks_for(structure, directives) is Err,
        match checks_for(structure, directives)->Err_0 {
            ExpandError::TupleStruct { field } => field < structure.fields.len()
                && structure.fields[field as int].ident is None,
            _ => false,
        },
        checks_for(structure, directives)->Err_0.message_text()
            == "Tuple structs are not supported"@,
    decreases directives.len(),
{
    if k < directives.len() - 1 {
        let rest = directives.drop_last();
        assert forall|j: int| 0 <= j < rest.len() implies (#[trigger] rest[j]).field
            < structure.fields.len() by {
            assert(rest[j] == directives[j]);
        }
        lemma_nameless_field_rejected(structure, rest, k);
    }
    lemma_check_errors(structure, directives);
}

/// Builds the label `Structure.field (type)`.
pub fn make_label(structure: &str, name: &str, ty: &str) -> (r: String)
    ensures
        r@ == label_text(structure@, name@, ty@),
{
    let mut label = String::from_str(structure);
    label.append(".");
    label.append(name);
    label.append(" (");
    label.append(ty);
    label.append(")");
    label
}

/// Builds the name of the routine that checks the structure called `ident`.
pub fn routine_name(ident: &str) -> (r: String)
    ensures
        r@ == routine_name_text(ident@),
{
    let mut name = String::from_str("structure_");
    name.append(ident);
    name
}

/// The attributes under which the routine is written out.
pub fn routine_attributes() -> (r: Vec<String>)
    ensures
        r@.map_values(|s: String| s@) == routine_attribute_texts(),
{
    let mut attributes: Vec<String> = Vec::new();
    attributes.push(String::from_str("#[cfg(test)]"));
    attributes.push(String::from_str("#[allow(non_snake_case)]"));
    attributes.push(String::from_str("#[test]"));
    proof {
        assert(attributes@.map_values(|s: String| s@) =~= routine_attribute_texts());
    }
    attributes
}

/// Builds the routine: one check for each directive, in order, then the size.
pub fn synthesize(structure: &Structure, directives: &Vec<Located>, size: u64) -> (r: Result<
    Routine,
    ExpandError,
>)
    requires
        in_bounds(directives@, structure@.fields.len() as int),
    ensures
        r is Ok == routine_for(structure@, directives@, size) is Ok,
        r is Ok ==> r->Ok_0@ == routine_for(structure@, directives@, size)->Ok_0,
        r is Err ==> r->Err_0 == routine_for(structure@, directives@, size)->Err_0,
{
    let mut checks: Vec<Check> = Vec::new();
    let n: usize = directives.len();
    let mut k: usize = 0;
    proof {
        assert(checks@.map_values(|c: Check| c@) =~= Seq::<CheckView>::empty());
    }
    while k < n
        invariant
            k <= n,
            n == directives@.len(),
            in_bounds(directives@, structure@.fields.len() as int),
            checks_for(structure@, directives@.take(k as int)) == Ok::<
                Seq<CheckView>,
                ExpandError,
            >(checks@.map_values(|c: Check| c@)),
        decreases n - k,
    {
        proof {
            assert(directives@.take(k as int + 1).drop_last() =~= directives@.take(k as int));
            assert(directives@.take(k as int + 1).last() == directives@[k as int]);
        }
        let d: Located = directives[k];
        let field = &structure.fields[d.field];
        proof {
            assert(structure@.fields[d.field as int] == field@);
        }
        match &field.ident {
            Some(name) => {
                let label = make_label(structure.ident.as_str(), name.as_str(), field.ty.as_str());
                let ghost before = checks@.map_values(|c: Check| c@);
                let check = Check { field: d.field, label, range: d.range };
                checks.push(check);
                proof {
                    assert(checks@.map_values(|c: Check| c@) =~= before.push(check@));
                }
            },
            None => {
                proof {
                    lemma_check_error_persists(structure@, directives@, k as int + 1);
                }
                return Err(ExpandError::TupleStruct { field: d.field });
            },
        }
        k = k + 1;
    }
    proof {
        assert(directives@.take(n as int) =~= directives@);
    }
    Ok(
        Routine {
            name: routine_name(structure.ident.as_str()),
            structure: structure.ident.clone(),
            checks,
            size,
        },
    )
}

} // verus!
