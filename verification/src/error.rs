use vstd::prelude::*;

verus! {

/// Mathematical model of an attribute error.
pub enum SpecAttributeError {
    /// More than one metadata attribute stood on one node.
    Duplicate,
    /// An unrecognized metadata key, carrying the key text.
    UnknownKey(Seq<char>),
    /// A status token that is not a known constant name or a valid code.
    InvalidStatus,
    /// A terminal node without a status.
    MissingStatus,
    /// A metadata key whose value has the wrong shape, carrying the key.
    InvalidValue(Seq<char>),
}

/// A failure while reading a node's metadata attribute.
#[derive(Debug, Clone, PartialEq, Eq)]
pub enum AttributeError {
    /// More than one metadata attribute stood on one node.
    Duplicate,
    /// An unrecognized metadata key, carrying the key text.
    UnknownKey(String),
    /// A status token that is not a known constant name or a valid code.
    InvalidStatus,
    /// A terminal node without a status.
    MissingStatus,
    /// A metadata key whose value has the wrong shape, carrying the key.
    InvalidValue(String),
}

impl AttributeError {
    /// The model of this error.
    pub open spec fn model(self) -> SpecAttributeError {
        match self {
            AttributeError::Duplicate => SpecAttributeError::Duplicate,
            AttributeError::UnknownKey(k) => SpecAttributeError::UnknownKey(k@),
            AttributeError::InvalidStatus => SpecAttributeError::InvalidStatus,
            AttributeError::MissingStatus => SpecAttributeError::MissingStatus,
            AttributeError::InvalidValue(k) => SpecAttributeError::InvalidValue(k@),
        }
    }
}

/// Mathematical model of a field-shape error.
pub enum SpecFieldShapeError {
    /// A variant declared named-style fields.
    NamedFields,
    /// A variant declared more than one unnamed field.
    MultipleUnnamedFields,
}

/// A failure over the shape of a variant's fields.
#[derive(Debug, Clone, PartialEq, Eq)]
pub enum FieldShapeError {
    /// A variant declared named-style fields.
    NamedFields,
    /// A variant declared more than one unnamed field.
    MultipleUnnamedFields,
}

impl FieldShapeError {
    /// The model of this error.
    pub open spec fn model(self) -> SpecFieldShapeError {
        match self {
            FieldShapeError::NamedFields => SpecFieldShapeError::NamedFields,
            FieldShapeError::MultipleUnnamedFields => SpecFieldShapeError::MultipleUnnamedFields,
        }
    }
}

/// Mathematical model of a declaration error.
pub enum SpecDeclarationError {
    /// A metadata attribute could not be read.
    Attribute(SpecAttributeError),
    /// A variant's fields have an unsupported shape.
    FieldShape(SpecFieldShapeError),
    /// The declaration is a union, which is not supported.
    UnionUnsupported,
    /// Delegation between declarations forms a cycle.
    CyclicDelegation,
    /// A variant cannot resolve: it has no usable field and no metadata, or
    /// it delegates to a type that is not declared; carries the variant
    /// name.
    Unresolvable(Seq<char>),
    /// A delegation target contributes no catalogue although documentation
    /// integration was requested; carries the target type name.
    MissingCatalogue(Seq<char>),
}

/// A failure while loading or generating from a declaration. Every such
/// error is fatal at build time: no partial artifact is produced.
#[derive(Debug, Clone, PartialEq, Eq)]
pub enum DeclarationError {
    /// A metadata attribute could not be read.
    Attribute(AttributeError),
    /// A variant's fields have an unsupported shape.
    FieldShape(FieldShapeError),
    /// The declaration is a union, which is not supported.
    UnionUnsupported,
    /// Delegation between declarations forms a cycle.
    CyclicDelegation,
    /// A variant cannot resolve: it has no usable field and no metadata, or
    /// it delegates to a type that is not declared; carries the variant
    /// name.
    Unresolvable(String),
    /// A delegation target contributes no catalogue although documentation
    /// integration was requested; carries the target type name.
    MissingCatalogue(String),
}

impl DeclarationError {
    /// The model of this error.
    pub open spec fn model(self) -> SpecDeclarationError {
        match self {
            DeclarationError::Attribute(e) => SpecDeclarationError::Attribute(e.model()),
            DeclarationError::FieldShape(e) => SpecDeclarationError::FieldShape(e.model()),
            DeclarationError::UnionUnsupported => SpecDeclarationError::UnionUnsupported,
            DeclarationError::CyclicDelegation => SpecDeclarationError::CyclicDelegation,
            DeclarationError::Unresolvable(v) => SpecDeclarationError::Unresolvable(v@),
            DeclarationError::MissingCatalogue(t) => SpecDeclarationError::MissingCatalogue(t@),
        }
    }
}

} // verus!
