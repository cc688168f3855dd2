//! The parts of a structure declaration that the directives are read from.

use vstd::prelude::*;
use vstd::string::*;

verus! {

/// One attribute of a structure or of a field.
#[derive(Debug, Clone, PartialEq, Eq)]
pub struct Attribute {
    /// The attribute's path, as written.
    pub name: String,
    /// The text between the attribute's delimiters; empty if it has none.
    pub args: String,
    /// The whole attribute as written, kept for writing it out again.
    pub text: String,
}

/// One field of a structure.
#[derive(Debug, Clone, PartialEq, Eq)]
pub struct Field {
    pub attrs: Vec<Attribute>,
    /// The visibility qualifier as written; empty for the default.
    pub vis: String,
    /// The field's name; `None` for a field of a tuple structure.
    pub ident: Option<String>,
    /// The field's type as written.
    pub ty: String,
}

/// A structure declaration with named fields.
#[derive(Debug, Clone, PartialEq, Eq)]
pub struct Structure {
    pub attrs: Vec<Attribute>,
    pub vis: String,
    pub ident: String,
    pub fields: Vec<Field>,
}

/// The mathematical value of an [`Attribute`].
pub ghost struct AttributeView {
    pub name: Seq<char>,
    pub args: Seq<char>,
    pub text: Seq<char>,
}

/// The mathematical value of a [`Field`].
pub ghost struct FieldView {
    pub attrs: Seq<AttributeView>,
    pub vis: Seq<char>,
    pub ident: Option<Seq<char>>,
    pub ty: Seq<char>,
}

/// The mathematical value of a [`Structure`].
pub ghost struct StructureView {
    pub attrs: Seq<AttributeView>,
    pub vis: Seq<char>,
    pub ident: Seq<char>,
    pub fields: Seq<FieldView>,
}

impl View for Attribute {
    type V = AttributeView;

    open spec fn view(&self) -> AttributeView {
        AttributeView { name: self.name@, args: self.args@, text: self.text@ }
    }
}

impl View for Field {
    type V = FieldView;

    open spec fn view(&self) -> FieldView {
        FieldView {
            attrs: self.attrs@.map_values(|a: Attribute| a@),
            vis: self.vis@,
            ident: match self.ident {
                Some(name) => Some(name@),
                None => None,
            },
            ty: self.ty@,
        }
    }
}

impl View for Structure {
    type V = StructureView;

    open spec fn view(&self) -> StructureView {
        StructureView {
            attrs: self.attrs@.map_values(|a: Attribute| a@),
            vis: self.vis@,
            ident: self.ident@,
            fields: self.fields@.map_values(|f: Field| f@),
        }
    }
}

impl AttributeView {
    /// Whether this attribute is a layout directive: its path is the single
    /// word `loc`.
    pub open spec fn is_directive(self) -> bool {
        self.name == "loc"@
    }
}

impl Attribute {
    /// Whether this attribute is a layout directive.
    pub fn is_layout_directive(&self) -> (r: bool)
        ensures
            r == self@.is_directive(),
    {
        let tag = String::from_str("loc");
        self.name == tag
    }

    /// A copy of this attribute.
    pub fn duplicate(&self) -> (r: Attribute)
        ensures
            r@ == self@,
    {
        Attribute { name: self.name.clone(), args: self.args.clone(), text: self.text.clone() }
    }
}

} // verus!
