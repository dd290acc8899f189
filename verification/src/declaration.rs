use vstd::prelude::*;

use crate::attribute::{
    spec_parse_attr_slice, spec_parse_data_slice, Attr, HttpErrorAttribute, HttpErrorDataAttribute,
    SpecAttribute, SpecDataAttribute,
};
use crate::error::{
    AttributeError, DeclarationError, FieldShapeError, SpecAttributeError, SpecDeclarationError,
};

verus! {

broadcast use vstd::seq::group_seq_axioms, vstd::std_specs::vec::group_vec_axioms;

/// One unnamed field of a variant: the name of its type, and whether the
/// field is marked excluded. An excluded field is opaque: it is neither
/// serialized nor status-bearing, so its variant must carry explicit status
/// metadata rather than delegate.
#[derive(Debug, Clone, PartialEq, Eq)]
pub struct FieldNode {
    pub ty_name: String,
    pub excluded: bool,
}

/// The fields of a variant as declared.
#[derive(Debug, Clone, PartialEq, Eq)]
pub enum FieldsNode {
    Named,
    Unnamed(Vec<FieldNode>),
    Unit,
}

/// A declared enum variant: its name, fields and attributes.
#[derive(Debug, Clone, PartialEq, Eq)]
pub struct VariantNode {
    pub name: String,
    pub fields: FieldsNode,
    pub attrs: Vec<Attr>,
}

/// The data of a declared type.
#[derive(Debug, Clone, PartialEq, Eq)]
pub enum DataNode {
    Struct,
    Enum(Vec<VariantNode>),
    Union,
}

/// A declared type: the root input of the loader.
#[derive(Debug, Clone, PartialEq, Eq)]
pub struct TypeNode {
    pub name: String,
    pub attrs: Vec<Attr>,
    pub data: DataNode,
}

/// A loaded enum variant. A variant with metadata is terminal: it resolves
/// to its own status. A variant without metadata but with a usable field
/// delegates to the field's type. `has_field` records whether the variant
/// was declared with a field at all, excluded or not.
#[derive(Debug, Clone, PartialEq, Eq)]
pub struct HttpErrorEnumVariant {
    pub name: String,
    pub has_field: bool,
    pub field: Option<String>,
    pub attribute: Option<HttpErrorAttribute>,
}

/// Mathematical model of a loaded variant.
pub struct SpecVariant {
    pub name: Seq<char>,
    pub has_field: bool,
    pub field: Option<Seq<char>>,
    pub attribute: Option<SpecAttribute>,
}

impl HttpErrorEnumVariant {
    /// The model of this variant.
    pub open spec fn model(self) -> SpecVariant {
        SpecVariant {
            name: self.name@,
            has_field: self.has_field,
            field: match self.field {
                Some(f) => Some(f@),
                None => None,
            },
            attribute: match self.attribute {
                Some(a) => Some(a.model()),
                None => None,
            },
        }
    }

    /// Well-formed: metadata, where present, carries a resolved status,
    /// and a usable field stands only on a variant declared with a field.
    pub open spec fn wf(self) -> bool {
        &&& match self.attribute {
            Some(a) => a.wf() && a.status is Some,
            None => true,
        }
        &&& self.field is Some ==> self.has_field
    }
}

/// A loaded enum declaration: its variants in order, and its metadata.
#[derive(Debug, Clone, PartialEq, Eq)]
pub struct HttpErrorEnum {
    pub variants: Vec<HttpErrorEnumVariant>,
    pub attribute: Option<HttpErrorDataAttribute>,
}

/// Mathematical model of a loaded enum declaration.
pub struct SpecEnum {
    pub variants: Seq<SpecVariant>,
    pub attribute: Option<SpecDataAttribute>,
}

impl HttpErrorEnum {
    /// The models of a sequence of variants, elementwise.
    pub open spec fn variant_models(vs: Seq<HttpErrorEnumVariant>) -> Seq<SpecVariant>
        decreases vs.len(),
    {
        if vs.len() == 0 {
            Seq::empty()
        } else {
            Self::variant_models(vs.drop_last()).push(vs.last().model())
        }
    }

    /// `variant_models` maps a sequence of variants elementwise.
    pub proof fn lemma_variant_models(vs: Seq<HttpErrorEnumVariant>)
        ensures
            Self::variant_models(vs).len() == vs.len(),
            forall|i: int| 0 <= i < vs.len() ==> Self::variant_models(vs)[i] == vs[i].model(),
        decreases vs.len(),
    {
        if vs.len() > 0 {
            Self::lemma_variant_models(vs.drop_last());
        }
    }

    /// The model of this enum declaration.
    pub open spec fn model(self) -> SpecEnum {
        SpecEnum {
            variants: Self::variant_models(self.variants@),
            attribute: match self.attribute {
                Some(a) => Some(a.model()),
                None => None,
            },
        }
    }

    /// Well-formed: every variant is, and the metadata, if present, is.
    pub open spec fn wf(self) -> bool {
        &&& forall|i: int| 0 <= i < self.variants@.len() ==> (#[trigger] self.variants@[i]).wf()
        &&& match self.attribute {
            Some(a) => a.wf(),
            None => true,
        }
    }
}

/// A loaded struct declaration: its metadata, which must carry a status,
/// and its payload schema reference, if any.
#[derive(Debug, Clone, PartialEq, Eq)]
pub struct HttpErrorStruct {
    pub attribute: HttpErrorDataAttribute,
    pub schema: Option<String>,
}

/// Mathematical model of a loaded struct declaration.
pub struct SpecStruct {
    pub attribute: SpecDataAttribute,
    pub schema: Option<Seq<char>>,
}

impl HttpErrorStruct {
    /// The model of this struct declaration.
    pub open spec fn model(self) -> SpecStruct {
        SpecStruct {
            attribute: self.attribute.model(),
            schema: match self.schema {
                Some(s) => Some(s@),
                None => None,
            },
        }
    }

    /// Well-formed: the metadata carries a resolved status.
    pub open spec fn wf(self) -> bool {
        self.attribute.wf() && self.attribute.status is Some
    }
}

/// The data of a loaded declaration.
#[derive(Debug, Clone, PartialEq, Eq)]
pub enum HttpErrorData {
    Struct(HttpErrorStruct),
    Enum(HttpErrorEnum),
}

/// Mathematical model of a loaded declaration's data.
pub enum SpecData {
    Struct(SpecStruct),
    Enum(SpecEnum),
}

impl HttpErrorData {
    /// The model of this data.
    pub open spec fn model(self) -> SpecData {
        match self {
            HttpErrorData::Struct(s) => SpecData::Struct(s.model()),
            HttpErrorData::Enum(e) => SpecData::Enum(e.model()),
        }
    }

    /// Well-formed: the underlying declaration is.
    pub open spec fn wf(self) -> bool {
        match self {
            HttpErrorData::Struct(s) => s.wf(),
            HttpErrorData::Enum(e) => e.wf(),
        }
    }

    /// The declaration-level metadata, if any.
    pub fn attribute(&self) -> (r: Option<&HttpErrorDataAttribute>)
        ensures
            match r {
                Some(a) => self.spec_attribute() == Some(a.model()),
                None => self.spec_attribute() is None,
            },
    {
        match self {
            HttpErrorData::Struct(s) => Some(&s.attribute),
            HttpErrorData::Enum(e) => match &e.attribute {
                Some(a) => Some(a),
                None => None,
            },
        }
    }

    /// The declaration-level metadata, if any.
    pub open spec fn spec_attribute(self) -> Option<SpecDataAttribute> {
        match self.model() {
            SpecData::Struct(s) => Some(s.attribute),
            SpecData::Enum(e) => e.attribute,
        }
    }
}

/// A loaded error-type declaration: the root of the schema tree.
#[derive(Debug, Clone, PartialEq, Eq)]
pub struct HttpError {
    pub name: String,
    pub data: HttpErrorData,
}

/// Mathematical model of a loaded declaration.
pub struct SpecDecl {
    pub name: Seq<char>,
    pub data: SpecData,
}

impl HttpError {
    /// The model of this declaration.
    pub open spec fn model(self) -> SpecDecl {
        SpecDecl { name: self.name@, data: self.data.model() }
    }

    /// Well-formed: the data is.
    pub open spec fn wf(self) -> bool {
        self.data.wf()
    }
}

impl HttpErrorEnumVariant {
    /// The status this variant declares, if it is terminal.
    pub fn status(&self) -> (r: Option<u16>)
        ensures
            match crate::resolver::spec_terminal_status(self.model()) {
                Some(code) => r == Some(code),
                None => r is None,
            },
    {
        match &self.attribute {
            Some(a) => a.status(),
            None => None,
        }
    }
}

impl HttpErrorEnum {
    /// The enum-level metadata, if any.
    pub fn attribute(&self) -> (r: Option<&HttpErrorDataAttribute>)
        ensures
            match r {
                Some(a) => self.model().attribute == Some(a.model()),
                None => self.model().attribute is None,
            },
    {
        self.attribute.as_ref()
    }
}

impl HttpErrorStruct {
    /// The struct-level metadata.
    pub fn attribute(&self) -> (r: Option<&HttpErrorDataAttribute>)
        ensures
            match r {
                Some(a) => self.model().attribute == a.model(),
                None => false,
            },
    {
        Some(&self.attribute)
    }

    /// The status this struct declares, if its metadata carries one.
    pub fn status(&self) -> (r: Option<u16>)
        ensures
            match self.model().attribute.status {
                Some(st) => r == Some(st.code),
                None => r is None,
            },
    {
        self.attribute.status()
    }
}

/// The loaded variant a variant node denotes, or the declaration error that
/// rejects it: named-style fields and more than one unnamed field are
/// invalid shapes; a variant with metadata but no status lacks a status.
pub open spec fn spec_parse_variant(v: VariantNode) -> Result<SpecVariant, SpecDeclarationError> {
    match v.fields {
        FieldsNode::Named => Err(
            SpecDeclarationError::FieldShape(crate::error::SpecFieldShapeError::NamedFields),
        ),
        FieldsNode::Unnamed(fs) => if fs@.len() > 1 {
            Err(
                SpecDeclarationError::FieldShape(
                    crate::error::SpecFieldShapeError::MultipleUnnamedFields,
                ),
            )
        } else if fs@.len() == 0 {
            spec_finish_variant(v, false, None)
        } else if fs@[0].excluded {
            spec_finish_variant(v, true, None)
        } else {
            spec_finish_variant(v, true, Some(fs@[0].ty_name@))
        },
        FieldsNode::Unit => spec_finish_variant(v, false, None),
    }
}

/// The loaded variant once its field shape is settled: its metadata is read
/// from its attributes, and metadata without a status is rejected.
pub open spec fn spec_finish_variant(
    v: VariantNode,
    has_field: bool,
    field: Option<Seq<char>>,
) -> Result<SpecVariant, SpecDeclarationError> {
    match spec_parse_attr_slice(v.attrs@, None) {
        Err(e) => Err(SpecDeclarationError::Attribute(e)),
        Ok(attribute) => match attribute {
            Some(a) => if a.status is None {
                Err(SpecDeclarationError::Attribute(SpecAttributeError::MissingStatus))
            } else {
                Ok(SpecVariant { name: v.name@, has_field, field, attribute: Some(a) })
            },
            None => Ok(SpecVariant { name: v.name@, has_field, field, attribute: None }),
        },
    }
}

/// The loaded variants a sequence of variant nodes denotes, in order, or
/// the first error among them.
pub open spec fn spec_parse_variants(vs: Seq<VariantNode>, acc: Seq<SpecVariant>) -> Result<
    Seq<SpecVariant>,
    SpecDeclarationError,
>
    decreases vs.len(),
{
    if vs.len() == 0 {
        Ok(acc)
    } else {
        match spec_parse_variant(vs.first()) {
            Ok(v) => spec_parse_variants(vs.drop_first(), acc.push(v)),
            Err(e) => Err(e),
        }
    }
}

/// The loaded enum a type node's variants and attributes denote.
pub open spec fn spec_parse_enum(vs: Seq<VariantNode>, attrs: Seq<Attr>) -> Result<
    SpecEnum,
    SpecDeclarationError,
> {
    match spec_parse_data_slice(attrs, None) {
        Err(e) => Err(SpecDeclarationError::Attribute(e)),
        Ok(attribute) => match spec_parse_variants(vs, Seq::empty()) {
            Ok(variants) => Ok(SpecEnum { variants, attribute }),
            Err(e) => Err(e),
        },
    }
}

/// The loaded struct a type node denotes: its metadata must be present and
/// carry a status; the struct itself is its payload schema.
pub open spec fn spec_parse_struct(name: Seq<char>, attrs: Seq<Attr>) -> Result<
    SpecStruct,
    SpecDeclarationError,
> {
    match spec_parse_data_slice(attrs, None) {
        Err(e) => Err(SpecDeclarationError::Attribute(e)),
        Ok(None) => Err(SpecDeclarationError::Attribute(SpecAttributeError::MissingStatus)),
        Ok(Some(a)) => if a.status is None {
            Err(SpecDeclarationError::Attribute(SpecAttributeError::MissingStatus))
        } else {
            Ok(SpecStruct { attribute: a, schema: Some(name) })
        },
    }
}

/// The loaded declaration a type node denotes: unions are rejected.
pub open spec fn spec_parse_decl(node: TypeNode) -> Result<SpecDecl, SpecDeclarationError> {
    match node.data {
        DataNode::Struct => match spec_parse_struct(node.name@, node.attrs@) {
            Ok(s) => Ok(SpecDecl { name: node.name@, data: SpecData::Struct(s) }),
            Err(e) => Err(e),
        },
        DataNode::Enum(vs) => match spec_parse_enum(vs@, node.attrs@) {
            Ok(e) => Ok(SpecDecl { name: node.name@, data: SpecData::Enum(e) }),
            Err(e) => Err(e),
        },
        DataNode::Union => Err(SpecDeclarationError::UnionUnsupported),
    }
}

impl HttpErrorEnumVariant {
    /// Loads one variant node, rejecting invalid field shapes and metadata
    /// without a status.
    pub fn parse(variant: &VariantNode) -> (r: Result<HttpErrorEnumVariant, DeclarationError>)
        ensures
            match r {
                Ok(v) => spec_parse_variant(*variant) == Ok::<_, SpecDeclarationError>(v.model())
                    && v.wf(),
                Err(e) => spec_parse_variant(*variant) == Err::<SpecVariant, _>(e.model()),
            },
    {
        let (has_field, field): (bool, Option<String>) = match &variant.fields {
            FieldsNode::Named => {
                return Err(DeclarationError::FieldShape(FieldShapeError::NamedFields));
            },
            FieldsNode::Unnamed(fs) => {
                if fs.len() > 1 {
                    return Err(
                        DeclarationError::FieldShape(FieldShapeError::MultipleUnnamedFields),
                    );
                } else if fs.len() == 0 {
                    (false, None)
                } else if fs[0].excluded {
                    (true, None)
                } else {
                    (true, Some(fs[0].ty_name.clone()))
                }
            },
            FieldsNode::Unit => (false, None),
        };
        let attribute = match HttpErrorAttribute::parse_slice(&variant.attrs) {
            Ok(a) => a,
            Err(e) => {
                return Err(DeclarationError::Attribute(e));
            },
        };
        match attribute {
            Some(a) => {
                if a.status.is_none() {
                    return Err(DeclarationError::Attribute(AttributeError::MissingStatus));
                }
                Ok(
                    HttpErrorEnumVariant {
                        name: variant.name.clone(),
                        has_field,
                        field,
                        attribute: Some(a),
                    },
                )
            },
            None => Ok(
                HttpErrorEnumVariant {
                    name: variant.name.clone(),
                    has_field,
                    field,
                    attribute: None,
                },
            ),
        }
    }
}

impl HttpErrorEnum {
    /// Loads an enum's variants and metadata from its type node's parts.
    pub fn parse(variants: &Vec<VariantNode>, attrs: &Vec<Attr>) -> (r: Result<
        HttpErrorEnum,
        DeclarationError,
    >)
        ensures
            match r {
                Ok(e) => spec_parse_enum(variants@, attrs@) == Ok::<_, SpecDeclarationError>(
                    e.model(),
                ) && e.wf(),
                Err(e) => spec_parse_enum(variants@, attrs@) == Err::<SpecEnum, _>(e.model()),
            },
    {
        let attribute = match HttpErrorDataAttribute::parse_slice(attrs) {
            Ok(a) => a,
            Err(e) => {
                return Err(DeclarationError::Attribute(e));
            },
        };
        let mut out: Vec<HttpErrorEnumVariant> = Vec::new();
        let mut i: usize = 0;
        proof {
            assert(variants@.skip(0) =~= variants@);
        }
        while i < variants.len()
            invariant
                i <= variants@.len(),
                forall|j: int| 0 <= j < out@.len() ==> (#[trigger] out@[j]).wf(),
                spec_parse_variants(variants@.skip(i as int), Self::variant_models(out@))
                    == spec_parse_variants(variants@, Seq::empty()),
                match attribute {
                    Some(a) => spec_parse_data_slice(attrs@, None) == Ok::<
                        _,
                        SpecAttributeError,
                    >(Some(a.model())) && a.wf(),
                    None => spec_parse_data_slice(attrs@, None) == Ok::<
                        Option<SpecDataAttribute>,
                        SpecAttributeError,
                    >(None),
                },
            decreases variants@.len() - i,
        {
            proof {
                assert(variants@.skip(i as int).first() == variants@[i as int]);
                assert(variants@.skip(i as int).drop_first() =~= variants@.skip(i as int + 1));
            }
            match HttpErrorEnumVariant::parse(&variants[i]) {
                Ok(v) => {
                    let ghost old_out = out@;
                    out.push(v);
                    proof {
                        assert(out@.drop_last() =~= old_out);
                    }
                },
                Err(e) => {
                    return Err(e);
                },
            }
            i = i + 1;
        }
        proof {
            assert(variants@.skip(variants@.len() as int) =~= Seq::<VariantNode>::empty());
        }
        Ok(HttpErrorEnum { variants: out, attribute })
    }
}

impl HttpErrorStruct {
    /// Loads a struct declaration from its type node's parts: metadata with
    /// a status is mandatory, and the struct is its own payload schema.
    pub fn parse(name: &String, attrs: &Vec<Attr>) -> (r: Result<HttpErrorStruct, DeclarationError>)
        ensures
            match r {
                Ok(s) => spec_parse_struct(name@, attrs@) == Ok::<_, SpecDeclarationError>(
                    s.model(),
                ) && s.wf(),
                Err(e) => spec_parse_struct(name@, attrs@) == Err::<SpecStruct, _>(e.model()),
            },
    {
        match HttpErrorDataAttribute::parse_slice(attrs) {
            Err(e) => Err(DeclarationError::Attribute(e)),
            Ok(None) => Err(DeclarationError::Attribute(AttributeError::MissingStatus)),
            Ok(Some(a)) => {
                if a.status.is_none() {
                    return Err(DeclarationError::Attribute(AttributeError::MissingStatus));
                }
                Ok(HttpErrorStruct { attribute: a, schema: Some(name.clone()) })
            },
        }
    }
}

impl HttpError {
    /// Loads a declaration from a type node: a struct or an enum; unions
    /// are rejected.
    pub fn parse(node: &TypeNode) -> (r: Result<HttpError, DeclarationError>)
        ensures
            match r {
                Ok(d) => spec_parse_decl(*node) == Ok::<_, SpecDeclarationError>(d.model())
                    && d.wf(),
                Err(e) => spec_parse_decl(*node) == Err::<SpecDecl, _>(e.model()),
            },
    {
        match &node.data {
            DataNode::Struct => match HttpErrorStruct::parse(&node.name, &node.attrs) {
                Ok(s) => Ok(
                    HttpError { name: node.name.clone(), data: HttpErrorData::Struct(s) },
                ),
                Err(e) => Err(e),
            },
            DataNode::Enum(variants) => match HttpErrorEnum::parse(variants, &node.attrs) {
                Ok(e) => Ok(HttpError { name: node.name.clone(), data: HttpErrorData::Enum(e) }),
                Err(e) => Err(e),
            },
            DataNode::Union => Err(DeclarationError::UnionUnsupported),
        }
    }
}

} // verus!
