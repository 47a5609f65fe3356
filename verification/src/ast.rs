//! Parsed files as the serving layer reads them.

use vstd::prelude::*;

verus! {

/// A half-open range of byte offsets in a file.
#[derive(Debug, Clone, Copy, PartialEq, Eq, Structural)]
pub struct ByteRange {
    pub start: usize,
    pub end: usize,
}

/// A name of a type at some place in a file, with the repo that it is qualified
/// by. The range covers the whole authored form.
#[derive(Debug)]
pub struct ClaimedName {
    pub name: String,
    pub repo: Option<String>,
    pub span: ByteRange,
}

/// The `type:` claim of an instance or an inline record.
#[derive(Debug)]
pub enum TypeClaim {
    Bare(ClaimedName),
    List(Vec<ClaimedName>),
}

/// A wikilink inside a field value.
#[derive(Debug)]
pub struct NavLink {
    /// The text between the double brackets.
    pub raw: String,
    pub span: ByteRange,
}

/// A record written inline as a field value.
#[derive(Debug)]
pub struct InlineValue {
    pub type_claim: Option<TypeClaim>,
    /// The `^:` id of the record.
    pub block_id: Option<String>,
    pub fields: Vec<InstanceField>,
}

/// A value of a field.
#[derive(Debug)]
pub enum InstanceValue {
    Text(String),
    Integer(i64),
    /// A number with a fraction or an exponent, as it is written.
    Float(String),
    Boolean(bool),
    Null,
    NotYetSupported,
    Mapping(InlineValue),
    Sequence(Vec<SequenceElement>),
}

#[derive(Debug)]
pub struct SequenceElement {
    pub value: InstanceValue,
    pub span: ByteRange,
    pub nav_links: Vec<NavLink>,
}

#[derive(Debug)]
pub struct InstanceField {
    pub key: String,
    pub key_span: ByteRange,
    pub value: InstanceValue,
    pub value_span: ByteRange,
    pub nav_links: Vec<NavLink>,
}

#[derive(Debug)]
pub struct Instance {
    pub type_claim: TypeClaim,
    pub fields: Vec<InstanceField>,
}

/// A field that a type-def declares.
#[derive(Debug)]
pub struct FieldDef {
    pub name: String,
    /// The shape expression as it is written.
    pub raw_shape: String,
    pub shape_span: ByteRange,
}

/// A block of a type-def that attaches metadata of another type.
#[derive(Debug)]
pub struct MetaBlock {
    pub claim: ClaimedName,
    pub fields: Vec<InstanceField>,
}

/// An item of the body that a type-def prescribes.
#[derive(Debug)]
pub enum BodyItem {
    Use(ClaimedName),
    Section { body: Option<Vec<BodyItem>> },
    Other,
}

#[derive(Debug)]
pub struct TypeDef {
    pub parents: Vec<ClaimedName>,
    pub sealed: Vec<ClaimedName>,
    pub fields: Vec<FieldDef>,
    pub meta_blocks: Option<Vec<MetaBlock>>,
    pub body: Option<Vec<BodyItem>>,
}

/// A parsed file. A file that did not parse as what it should be holds nothing.
#[derive(Debug)]
pub enum FileParse {
    TypeDef(Option<TypeDef>),
    Instance(Option<Instance>),
    Note(Vec<InstanceField>),
    Other,
}

/// The names that a claim lists.
pub open spec fn claim_items(claim: TypeClaim) -> Seq<ClaimedName> {
    match claim {
        TypeClaim::Bare(c) => seq![c],
        TypeClaim::List(items) => items@,
    }
}

} // verus!
