//! Reading the `size = N` directive of a structure and the `loc(start:end)`
//! directives of its fields into numbers.

use vstd::prelude::*;
use vstd::string::*;
use crate::error::ExpandError;
use crate::literal::{integer_literal, parse_integer};
use crate::model::{AttributeView, Field, FieldView, Structure};
use crate::text::{split_at_first, split_once, trim, trimmed};

verus! {

/// The inclusive range of bytes that a field is declared to occupy.
#[derive(Debug, Clone, Copy, PartialEq, Eq, Structural)]
pub struct Range {
    pub start: u64,
    pub end: u64,
}

/// A range directive together with the index of the field that carries it.
#[derive(Debug, Clone, Copy, PartialEq, Eq, Structural)]
pub struct Located {
    pub field: usize,
    pub range: Range,
}

/// The size that the argument text `args` declares: the text must be the key
/// `size`, an equals sign and an integer literal.
pub open spec fn size_directive(args: Seq<char>) -> Result<u64, ExpandError> {
    match split_once(args, '=') {
        Some((key, value)) => if trimmed(key) == "size"@ {
            match integer_literal(value) {
                Some(size) => Ok(size),
                None => Err(ExpandError::UnexpectedSizeType),
            }
        } else {
            Err(ExpandError::UnexpectedMetaItem)
        },
        None => Err(ExpandError::UnexpectedMetaItem),
    }
}

/// The range that the argument text of a `loc` directive declares: an integer
/// literal, a colon and an integer literal.
pub open spec fn range_directive(args: Seq<char>) -> Option<Range> {
    match split_once(args, ':') {
        Some((start, end)) => match (integer_literal(start), integer_literal(end)) {
            (Some(s), Some(e)) => Some(Range { start: s, end: e }),
            _ => None,
        },
        None => None,
    }
}

/// The ranges declared by the attributes `attrs` of the field at `index`, in
/// the order of the attributes; the first malformed directive is the error.
pub open spec fn field_directives(index: usize, attrs: Seq<AttributeView>) -> Result<
    Seq<Located>,
    ExpandError,
>
    decreases attrs.len(),
{
    if attrs.len() == 0 {
        Ok(Seq::empty())
    } else {
        match field_directives(index, attrs.drop_last()) {
            Err(e) => Err(e),
            Ok(found) => if attrs.last().is_directive() {
                match range_directive(attrs.last().args) {
                    Some(range) => Ok(found.push(Located { field: index, range })),
                    None => Err(
                        ExpandError::MalformedRange {
                            field: index,
                            attribute: (attrs.len() - 1) as usize,
                        },
                    ),
                }
            } else {
                Ok(found)
            },
        }
    }
}

/// The ranges declared by all of `fields`, in declaration order; the first
/// malformed directive is the error.
pub open spec fn structure_directives(fields: Seq<FieldView>) -> Result<Seq<Located>, ExpandError>
    decreases fields.len(),
{
    if fields.len() == 0 {
        Ok(Seq::empty())
    } else {
        match structure_directives(fields.drop_last()) {
            Err(e) => Err(e),
            Ok(found) => match field_directives(
                (fields.len() - 1) as usize,
                fields.last().attrs,
            ) {
                Err(e) => Err(e),
                Ok(more) => Ok(found + more),
            },
        }
    }
}

/// The number of layout directives among `attrs`.
pub open spec fn directive_count(attrs: Seq<AttributeView>) -> nat
    decreases attrs.len(),
{
    if attrs.len() == 0 {
        0
    } else {
        directive_count(attrs.drop_last()) + if attrs.last().is_directive() {
            1nat
        } else {
            0nat
        }
    }
}

/// The number of layout directives on all of `fields`.
pub open spec fn total_directives(fields: Seq<FieldView>) -> nat
    decreases fields.len(),
{
    if fields.len() == 0 {
        0
    } else {
        total_directives(fields.drop_last()) + directive_count(fields.last().attrs)
    }
}

/// A field yields one range for each of its directives, and each range is
/// marked with the field's index.
pub proof fn lemma_field_directives_located(index: usize, attrs: Seq<AttributeView>)
    requires
        field_directives(index, attrs) is Ok,
    ensures
        field_directives(index, attrs)->Ok_0.len() == directive_count(attrs),
        forall|k: int|
            0 <= k < field_directives(index, attrs)->Ok_0.len() ==> (
            #[trigger] field_directives(index, attrs)->Ok_0[k]).field == index,
    decreases attrs.len(),
{
    if attrs.len() > 0 {
        lemma_field_directives_located(index, attrs.drop_last());
    }
}

/// A structure yields one range for each directive on its fields, and each
/// range points at a field that carries a directive. So a field without a
/// directive has no range, and later no check.
pub proof fn lemma_directives_located(fields: Seq<FieldView>)
    requires
        fields.len() <= usize::MAX,
        structure_directives(fields) is Ok,
    ensures
        structure_directives(fields)->Ok_0.len() == total_directives(fields),
        forall|k: int|
            0 <= k < structure_directives(fields)->Ok_0.len() ==> {
                let d = #[trigger] structure_directives(fields)->Ok_0[k];
                d.field < fields.len() && directive_count(fields[d.field as int].attrs) > 0
            },
    decreases fields.len(),
{
    if fields.len() > 0 {
        let rest = fields.drop_last();
        let index = (fields.len() - 1) as usize;
        lemma_directives_located(rest);
        lemma_field_directives_located(index, fields.last().attrs);
        let found = structure_directives(rest)->Ok_0;
        let more = field_directives(index, fields.last().attrs)->Ok_0;
        let all = structure_directives(fields)->Ok_0;
        assert(all == found + more);
        assert forall|k: int| 0 <= k < all.len() implies {
            let d = #[trigger] all[k];
            d.field < fields.len() && directive_count(fields[d.field as int].attrs) > 0
        } by {
            if k < found.len() {
                assert(all[k] == found[k]);
                assert(rest[found[k].field as int] == fields[found[k].field as int]);
            } else {
                assert(all[k] == more[k - found.len()]);
            }
        }
    }
}

/// The ranges come in declaration order: the field index never decreases
/// from one range to the next.
pub proof fn lemma_directives_in_order(fields: Seq<FieldView>)
    requires
        fields.len() <= usize::MAX,
        structure_directives(fields) is Ok,
    ensures
        forall|j: int, k: int|
            0 <= j <= k < structure_directives(fields)->Ok_0.len() ==> (
            #[trigger] structure_directives(fields)->Ok_0[j]).field <= (
            #[trigger] structure_directives(fields)->Ok_0[k]).field,
    decreases fields.len(),
{
    if fields.len() > 0 {
        let rest = fields.drop_last();
        let index = (fields.len() - 1) as usize;
        lemma_directives_in_order(rest);
        lemma_directives_located(rest);
        lemma_field_directives_located(index, fields.last().attrs);
        let found = structure_directives(rest)->Ok_0;
        let more = field_directives(index, fields.last().attrs)->Ok_0;
        let all = structure_directives(fields)->Ok_0;
        assert(all == found + more);
        assert forall|j: int, k: int| 0 <= j <= k < all.len() implies (#[trigger] all[j]).field <= (
        #[trigger] all[k]).field by {
            if k < found.len() {
                assert(all[j] == found[j] && all[k] == found[k]);
            } else if j < found.len() {
                assert(all[j] == found[j]);
                assert(all[k] == more[k - found.len()]);
            } else {
                assert(all[j] == more[j - found.len()]);
                assert(all[k] == more[k - found.len()]);
            }
        }
    }
}

/// Reads the argument text of the structure's directive, `size = N`.
pub fn parse_size(args: &str) -> (r: Result<u64, ExpandError>)
    ensures
        r == size_directive(args@),
{
    match split_at_first(args, '=') {
        Some((key, value)) => {
            let word = String::from_str(trim(key));
            let expected = String::from_str("size");
            if word == expected {
                match parse_integer(value) {
                    Some(size) => Ok(size),
                    None => Err(ExpandError::UnexpectedSizeType),
                }
            } else {
                Err(ExpandError::UnexpectedMetaItem)
            }
        },
        None => Err(ExpandError::UnexpectedMetaItem),
    }
}

/// Reads the argument text of a field's directive, `start : end`.
pub fn parse_range(args: &str) -> (r: Option<Range>)
    ensures
        r == range_directive(args@),
{
    match split_at_first(args, ':') {
        Some((start, end)) => {
            match (parse_integer(start), parse_integer(end)) {
                (Some(s), Some(e)) => Some(Range { start: s, end: e }),
                _ => None,
            }
        },
        None => None,
    }
}

/// Reads every `loc` directive among the attributes of the field at `index`.
pub fn extract_field(index: usize, field: &Field) -> (r: Result<Vec<Located>, ExpandError>)
    ensures
        r is Ok == field_directives(index, field@.attrs) is Ok,
        r is Ok ==> r->Ok_0@ == field_directives(index, field@.attrs)->Ok_0,
        r is Err ==> r->Err_0 == field_directives(index, field@.attrs)->Err_0,
{
    let mut found: Vec<Located> = Vec::new();
    let n: usize = field.attrs.len();
    let mut j: usize = 0;
    let ghost attrs = field@.attrs;
    while j < n
        invariant
            j <= n,
            n == field.attrs@.len(),
            attrs == field@.attrs,
            field_directives(index, attrs.take(j as int)) == Ok::<Seq<Located>, ExpandError>(
                found@,
            ),
        decreases n - j,
    {
        proof {
            assert(attrs.take(j as int + 1).drop_last() =~= attrs.take(j as int));
            assert(attrs.take(j as int + 1).last() == field.attrs@[j as int]@);
        }
        let attr = &field.attrs[j];
        if attr.is_layout_directive() {
            match parse_range(attr.args.as_str()) {
                Some(range) => {
                    found.push(Located { field: index, range });
                },
                None => {
                    proof {
                        lemma_field_error_persists(index, attrs, j as int + 1);
                    }
                    return Err(ExpandError::MalformedRange { field: index, attribute: j });
                },
            }
        }
        j = j + 1;
    }
    proof {
        assert(attrs.take(n as int) =~= attrs);
    }
    Ok(found)
}

/// Reads every `loc` directive of every field, in declaration order.
pub fn extract_ranges(structure: &Structure) -> (r: Result<Vec<Located>, ExpandError>)
    ensures
        r is Ok == structure_directives(structure@.fields) is Ok,
        r is Ok ==> r->Ok_0@ == structure_directives(structure@.fields)->Ok_0,
        r is Err ==> r->Err_0 == structure_directives(structure@.fields)->Err_0,
        r is Ok ==> forall|k: int|
            0 <= k < r->Ok_0@.len() ==> (#[trigger] r->Ok_0@[k]).field < structure.fields@.len(),
{
    let mut found: Vec<Located> = Vec::new();
    let n: usize = structure.fields.len();
    let mut i: usize = 0;
    let ghost fields = structure@.fields;
    while i < n
        invariant
            i <= n,
            n == structure.fields@.len(),
            fields == structure@.fields,
            structure_directives(fields.take(i as int)) == Ok::<Seq<Located>, ExpandError>(
                found@,
            ),
        decreases n - i,
    {
        proof {
            assert(fields.take(i as int + 1).drop_last() =~= fields.take(i as int));
            assert(fields.take(i as int + 1).last() == structure.fields@[i as int]@);
        }
        match extract_field(i, &structure.fields[i]) {
            Ok(mut more) => {
                found.append(&mut more);
            },
            Err(e) => {
                proof {
                    lemma_structure_error_persists(fields, i as int + 1);
                }
                return Err(e);
            },
        }
        i = i + 1;
    }
    proof {
        assert(fields.take(n as int) =~= fields);
        lemma_directives_located(fields);
    }
    Ok(found)
}

/// Once a prefix of the attributes holds a malformed directive, every longer
/// prefix reports the same error.
pub proof fn lemma_field_error_persists(index: usize, attrs: Seq<AttributeView>, k: int)
    requires
        0 <= k <= attrs.len(),
        field_directives(index, attrs.take(k)) is Err,
    ensures
        field_directives(index, attrs) == field_directives(index, attrs.take(k)),
    decreases attrs.len() - k,
{
    if k == attrs.len() {
        assert(attrs.take(k) =~= attrs);
    } else {
        assert(attrs.take(k + 1).drop_last() =~= attrs.take(k));
        lemma_field_error_persists(index, attrs, k + 1);
    }
}

/// Once a prefix of the fields holds a malformed directive, every longer
/// prefix reports the same error.
pub proof fn lemma_structure_error_persists(fields: Seq<FieldView>, k: int)
    requires
        0 <= k <= fields.len(),
        structure_directives(fields.take(k)) is Err,
    ensures
        structure_directives(fields) == structure_directives(fields.take(k)),
    decreases fields.len() - k,
{
    if k == fields.len() {
        assert(fields.take(k) =~= fields);
    } else {
        assert(fields.take(k + 1).drop_last() =~= fields.take(k));
        lemma_structure_error_persists(fields, k + 1);
    }
}

} // verus!
