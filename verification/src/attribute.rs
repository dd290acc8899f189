use vstd::prelude::*;

use crate::error::{AttributeError, SpecAttributeError};
use crate::status::{spec_raw_status, RawStatusCode, SpecStatus, Status};

verus! {

broadcast use vstd::seq::group_seq_axioms, vstd::std_specs::vec::group_vec_axioms;

/// The value of one metadata item: a bare identifier or an integer literal.
#[derive(Debug, Clone, PartialEq, Eq)]
pub enum MetaValue {
    Ident(String),
    Int(u64),
}

/// One item of a metadata attribute: a key, optionally with a value.
#[derive(Debug, Clone, PartialEq, Eq)]
pub struct MetaItem {
    pub key: String,
    pub value: Option<MetaValue>,
}

/// An attribute on a declaration node: its name and its items. Only
/// attributes named `http` carry this library's metadata; others are
/// ignored.
#[derive(Debug, Clone, PartialEq, Eq)]
pub struct Attr {
    pub name: String,
    pub items: Vec<MetaItem>,
}

/// The metadata of an enum variant: its status, if declared.
#[derive(Debug, Clone, PartialEq, Eq)]
pub struct HttpErrorAttribute {
    pub status: Option<Status>,
}

/// Mathematical model of a variant's metadata.
pub struct SpecAttribute {
    pub status: Option<SpecStatus>,
}

impl HttpErrorAttribute {
    /// The model of this metadata.
    pub open spec fn model(self) -> SpecAttribute {
        SpecAttribute {
            status: match self.status {
                Some(s) => Some(s.model()),
                None => None,
            },
        }
    }

    /// Well-formed: the status, if declared, is resolved to its own code.
    pub open spec fn wf(self) -> bool {
        match self.status {
            Some(s) => s.wf(),
            None => true,
        }
    }
}

/// The metadata of a declaration: its status, base catalogue, hook, and
/// integration flags.
#[derive(Debug, Clone, PartialEq, Eq)]
pub struct HttpErrorDataAttribute {
    pub status: Option<Status>,
    pub base: Option<String>,
    pub hook: Option<String>,
    pub axum: bool,
    pub utoipa: bool,
}

/// Mathematical model of a declaration's metadata.
pub struct SpecDataAttribute {
    pub status: Option<SpecStatus>,
    pub base: Option<Seq<char>>,
    pub hook: Option<Seq<char>>,
    pub axum: bool,
    pub utoipa: bool,
}

impl HttpErrorDataAttribute {
    /// The model of this metadata.
    pub open spec fn model(self) -> SpecDataAttribute {
        SpecDataAttribute {
            status: match self.status {
                Some(s) => Some(s.model()),
                None => None,
            },
            base: match self.base {
                Some(b) => Some(b@),
                None => None,
            },
            hook: match self.hook {
                Some(h) => Some(h@),
                None => None,
            },
            axum: self.axum,
            utoipa: self.utoipa,
        }
    }

    /// Well-formed: the status, if declared, is resolved to its own code.
    pub open spec fn wf(self) -> bool {
        match self.status {
            Some(s) => s.wf(),
            None => true,
        }
    }

    /// Metadata with nothing declared.
    pub open spec fn spec_empty() -> SpecDataAttribute {
        SpecDataAttribute { status: None, base: None, hook: None, axum: false, utoipa: false }
    }
}

impl HttpErrorAttribute {
    /// The declared status code, if a status is declared.
    pub fn status(&self) -> (r: Option<u16>)
        ensures
            match self.model().status {
                Some(st) => r == Some(st.code),
                None => r is None,
            },
    {
        match &self.status {
            Some(s) => Some(s.code),
            None => None,
        }
    }
}

impl HttpErrorDataAttribute {
    /// The declared status code, if a status is declared.
    pub fn status(&self) -> (r: Option<u16>)
        ensures
            match self.model().status {
                Some(st) => r == Some(st.code),
                None => r is None,
            },
    {
        match &self.status {
            Some(s) => Some(s.code),
            None => None,
        }
    }

    /// The declared hook reference, if one is declared.
    pub fn hook(&self) -> (r: Option<&String>)
        ensures
            match r {
                Some(h) => self.model().hook == Some(h@),
                None => self.model().hook is None,
            },
    {
        self.hook.as_ref()
    }
}

/// The resolved status a metadata value denotes, if it is a valid status
/// token.
pub open spec fn spec_status_of_value(value: MetaValue) -> Option<SpecStatus> {
    let raw = match value {
        MetaValue::Ident(name) => crate::status::SpecRawStatus::Ident(name@),
        MetaValue::Int(n) => crate::status::SpecRawStatus::Lit(n),
    };
    match spec_raw_status(raw) {
        Some(code) => Some(SpecStatus { code, raw }),
        None => None,
    }
}

/// One step of reading a variant's metadata items: only `status` is
/// recognized; a later `status` overrides an earlier one.
pub open spec fn spec_parse_attr_items(items: Seq<MetaItem>, acc: SpecAttribute) -> Result<
    SpecAttribute,
    SpecAttributeError,
>
    decreases items.len(),
{
    if items.len() == 0 {
        Ok(acc)
    } else {
        let item = items.first();
        if item.key@ == "status"@ {
            match item.value {
                Some(v) => match spec_status_of_value(v) {
                    Some(s) => spec_parse_attr_items(
                        items.drop_first(),
                        SpecAttribute { status: Some(s) },
                    ),
                    None => Err(SpecAttributeError::InvalidStatus),
                },
                None => Err(SpecAttributeError::InvalidStatus),
            }
        } else {
            Err(SpecAttributeError::UnknownKey(item.key@))
        }
    }
}

/// One step of reading a declaration's metadata items: the keys `status`,
/// `base`, `hook`, `axum` and `utoipa` are recognized; a later occurrence
/// of a key overrides an earlier one.
pub open spec fn spec_parse_data_items(items: Seq<MetaItem>, acc: SpecDataAttribute) -> Result<
    SpecDataAttribute,
    SpecAttributeError,
>
    decreases items.len(),
{
    if items.len() == 0 {
        Ok(acc)
    } else {
        let item = items.first();
        let rest = items.drop_first();
        if item.key@ == "status"@ {
            match item.value {
                Some(v) => match spec_status_of_value(v) {
                    Some(s) => spec_parse_data_items(
                        rest,
                        SpecDataAttribute { status: Some(s), ..acc },
                    ),
                    None => Err(SpecAttributeError::InvalidStatus),
                },
                None => Err(SpecAttributeError::InvalidStatus),
            }
        } else if item.key@ == "base"@ {
            match item.value {
                Some(MetaValue::Ident(name)) => spec_parse_data_items(
                    rest,
                    SpecDataAttribute { base: Some(name@), ..acc },
                ),
                _ => Err(SpecAttributeError::InvalidValue(item.key@)),
            }
        } else if item.key@ == "hook"@ {
            match item.value {
                Some(MetaValue::Ident(name)) => spec_parse_data_items(
                    rest,
                    SpecDataAttribute { hook: Some(name@), ..acc },
                ),
                _ => Err(SpecAttributeError::InvalidValue(item.key@)),
            }
        } else if item.key@ == "axum"@ {
            match item.value {
                None => spec_parse_data_items(rest, SpecDataAttribute { axum: true, ..acc }),
                _ => Err(SpecAttributeError::InvalidValue(item.key@)),
            }
        } else if item.key@ == "utoipa"@ {
            match item.value {
                None => spec_parse_data_items(rest, SpecDataAttribute { utoipa: true, ..acc }),
                _ => Err(SpecAttributeError::InvalidValue(item.key@)),
            }
        } else {
            Err(SpecAttributeError::UnknownKey(item.key@))
        }
    }
}

/// The variant metadata read from a slice of attributes: at most one `http`
/// attribute may stand on a node.
pub open spec fn spec_parse_attr_slice(attrs: Seq<Attr>, found: Option<SpecAttribute>) -> Result<
    Option<SpecAttribute>,
    SpecAttributeError,
>
    decreases attrs.len(),
{
    if attrs.len() == 0 {
        Ok(found)
    } else if attrs.first().name@ != "http"@ {
        spec_parse_attr_slice(attrs.drop_first(), found)
    } else if found is Some {
        Err(SpecAttributeError::Duplicate)
    } else {
        match spec_parse_attr_items(attrs.first().items@, SpecAttribute { status: None }) {
            Ok(a) => spec_parse_attr_slice(attrs.drop_first(), Some(a)),
            Err(e) => Err(e),
        }
    }
}

/// The declaration metadata read from a slice of attributes: at most one
/// `http` attribute may stand on a node.
pub open spec fn spec_parse_data_slice(attrs: Seq<Attr>, found: Option<SpecDataAttribute>) -> Result<
    Option<SpecDataAttribute>,
    SpecAttributeError,
>
    decreases attrs.len(),
{
    if attrs.len() == 0 {
        Ok(found)
    } else if attrs.first().name@ != "http"@ {
        spec_parse_data_slice(attrs.drop_first(), found)
    } else if found is Some {
        Err(SpecAttributeError::Duplicate)
    } else {
        match spec_parse_data_items(attrs.first().items@, HttpErrorDataAttribute::spec_empty()) {
            Ok(a) => spec_parse_data_slice(attrs.drop_first(), Some(a)),
            Err(e) => Err(e),
        }
    }
}

/// The status a metadata value denotes, if it is a valid status token.
fn status_of_value(value: &MetaValue) -> (r: Result<Status, AttributeError>)
    ensures
        match r {
            Ok(s) => spec_status_of_value(*value) == Some(s.model()) && s.wf(),
            Err(e) => spec_status_of_value(*value) is None && e == AttributeError::InvalidStatus,
        },
{
    let raw = match value {
        MetaValue::Ident(name) => RawStatusCode::Ident(name.clone()),
        MetaValue::Int(n) => RawStatusCode::Lit(*n),
    };
    Status::parse(raw)
}

impl HttpErrorAttribute {
    /// Reads a variant's metadata from one attribute's items.
    pub fn parse(attr: &Attr) -> (r: Result<HttpErrorAttribute, AttributeError>)
        ensures
            match r {
                Ok(a) => spec_parse_attr_items(attr.items@, SpecAttribute { status: None }) == Ok::<
                    _,
                    SpecAttributeError,
                >(a.model()) && a.wf(),
                Err(e) => spec_parse_attr_items(attr.items@, SpecAttribute { status: None })
                    == Err::<SpecAttribute, _>(e.model()),
            },
    {
        let mut result = HttpErrorAttribute { status: None };
        let mut i: usize = 0;
        proof {
            assert(attr.items@.skip(0) =~= attr.items@);
        }
        while i < attr.items.len()
            invariant
                i <= attr.items@.len(),
                result.wf(),
                spec_parse_attr_items(attr.items@.skip(i as int), result.model())
                    == spec_parse_attr_items(attr.items@, SpecAttribute { status: None }),
            decreases attr.items@.len() - i,
        {
            let item = &attr.items[i];
            proof {
                assert(attr.items@.skip(i as int).first() == attr.items@[i as int]);
                assert(attr.items@.skip(i as int).drop_first() =~= attr.items@.skip(i as int + 1));
            }
            if item.key == "status".to_owned() {
                match &item.value {
                    Some(v) => {
                        match status_of_value(v) {
                            Ok(s) => {
                                result = HttpErrorAttribute { status: Some(s) };
                            },
                            Err(e) => {
                                return Err(e);
                            },
                        }
                    },
                    None => {
                        return Err(AttributeError::InvalidStatus);
                    },
                }
            } else {
                return Err(AttributeError::UnknownKey(item.key.clone()));
            }
            i = i + 1;
        }
        proof {
            assert(attr.items@.skip(attr.items@.len() as int) =~= Seq::<MetaItem>::empty());
        }
        Ok(result)
    }

    /// Reads a variant's metadata from its attributes; at most one `http`
    /// attribute may stand on the node.
    pub fn parse_slice(attrs: &Vec<Attr>) -> (r: Result<Option<HttpErrorAttribute>, AttributeError>)
        ensures
            match r {
                Ok(Some(a)) => spec_parse_attr_slice(attrs@, None) == Ok::<
                    _,
                    SpecAttributeError,
                >(Some(a.model())) && a.wf(),
                Ok(None) => spec_parse_attr_slice(attrs@, None) == Ok::<
                    Option<SpecAttribute>,
                    SpecAttributeError,
                >(None),
                Err(e) => spec_parse_attr_slice(attrs@, None) == Err::<
                    Option<SpecAttribute>,
                    _,
                >(e.model()),
            },
    {
        let mut result: Option<HttpErrorAttribute> = None;
        let mut i: usize = 0;
        proof {
            assert(attrs@.skip(0) =~= attrs@);
        }
        while i < attrs.len()
            invariant
                i <= attrs@.len(),
                match result {
                    Some(a) => a.wf(),
                    None => true,
                },
                spec_parse_attr_slice(
                    attrs@.skip(i as int),
                    match result {
                        Some(a) => Some(a.model()),
                        None => None,
                    },
                ) == spec_parse_attr_slice(attrs@, None),
            decreases attrs@.len() - i,
        {
            let attr = &attrs[i];
            proof {
                assert(attrs@.skip(i as int).first() == attrs@[i as int]);
                assert(attrs@.skip(i as int).drop_first() =~= attrs@.skip(i as int + 1));
            }
            if attr.name == "http".to_owned() {
                if result.is_some() {
                    return Err(AttributeError::Duplicate);
                }
                match Self::parse(attr) {
                    Ok(a) => {
                        result = Some(a);
                    },
                    Err(e) => {
                        return Err(e);
                    },
                }
            }
            i = i + 1;
        }
        proof {
            assert(attrs@.skip(attrs@.len() as int) =~= Seq::<Attr>::empty());
        }
        Ok(result)
    }
}

impl HttpErrorDataAttribute {
    /// Metadata with nothing declared.
    pub fn empty() -> (r: HttpErrorDataAttribute)
        ensures
            r.model() == Self::spec_empty(),
            r.wf(),
    {
        HttpErrorDataAttribute { status: None, base: None, hook: None, axum: false, utoipa: false }
    }

    /// Reads a declaration's metadata from one attribute's items.
    pub fn parse(attr: &Attr) -> (r: Result<HttpErrorDataAttribute, AttributeError>)
        ensures
            match r {
                Ok(a) => spec_parse_data_items(attr.items@, Self::spec_empty()) == Ok::<
                    _,
                    SpecAttributeError,
                >(a.model()) && a.wf(),
                Err(e) => spec_parse_data_items(attr.items@, Self::spec_empty()) == Err::<
                    SpecDataAttribute,
                    _,
                >(e.model()),
            },
    {
        let mut result = Self::empty();
        let mut i: usize = 0;
        proof {
            assert(attr.items@.skip(0) =~= attr.items@);
        }
        while i < attr.items.len()
            invariant
                i <= attr.items@.len(),
                result.wf(),
                spec_parse_data_items(attr.items@.skip(i as int), result.model())
                    == spec_parse_data_items(attr.items@, Self::spec_empty()),
            decreases attr.items@.len() - i,
        {
            let item = &attr.items[i];
            proof {
                assert(attr.items@.skip(i as int).first() == attr.items@[i as int]);
                assert(attr.items@.skip(i as int).drop_first() =~= attr.items@.skip(i as int + 1));
            }
            if item.key == "status".to_owned() {
                match &item.value {
                    Some(v) => {
                        match status_of_value(v) {
                            Ok(s) => {
                                result.status = Some(s);
                            },
                            Err(e) => {
                                return Err(e);
                            },
                        }
                    },
                    None => {
                        return Err(AttributeError::InvalidStatus);
                    },
                }
            } else if item.key == "base".to_owned() {
                match &item.value {
                    Some(MetaValue::Ident(name)) => {
                        result.base = Some(name.clone());
                    },
                    _ => {
                        return Err(AttributeError::InvalidValue(item.key.clone()));
                    },
                }
            } else if item.key == "hook".to_owned() {
                match &item.value {
                    Some(MetaValue::Ident(name)) => {
                        result.hook = Some(name.clone());
                    },
                    _ => {
                        return Err(AttributeError::InvalidValue(item.key.clone()));
                    },
                }
            } else if item.key == "axum".to_owned() {
                match &item.value {
                    None => {
                        result.axum = true;
                    },
                    _ => {
                        return Err(AttributeError::InvalidValue(item.key.clone()));
                    },
                }
            } else if item.key == "utoipa".to_owned() {
                match &item.value {
                    None => {
                        result.utoipa = true;
                    },
                    _ => {
                        return Err(AttributeError::InvalidValue(item.key.clone()));
                    },
                }
            } else {
                return Err(AttributeError::UnknownKey(item.key.clone()));
            }
            i = i + 1;
        }
        proof {
            assert(attr.items@.skip(attr.items@.len() as int) =~= Seq::<MetaItem>::empty());
        }
        Ok(result)
    }

    /// Reads a declaration's metadata from its attributes; at most one
    /// `http` attribute may stand on the node.
    pub fn parse_slice(attrs: &Vec<Attr>) -> (r: Result<
        Option<HttpErrorDataAttribute>,
        AttributeError,
    >)
        ensures
            match r {
                Ok(Some(a)) => spec_parse_data_slice(attrs@, None) == Ok::<
                    _,
                    SpecAttributeError,
                >(Some(a.model())) && a.wf(),
                Ok(None) => spec_parse_data_slice(attrs@, None) == Ok::<
                    Option<SpecDataAttribute>,
                    SpecAttributeError,
                >(None),
                Err(e) => spec_parse_data_slice(attrs@, None) == Err::<
                    Option<SpecDataAttribute>,
                    _,
                >(e.model()),
            },
    {
        let mut result: Option<HttpErrorDataAttribute> = None;
        let mut i: usize = 0;
        proof {
            assert(attrs@.skip(0) =~= attrs@);
        }
        while i < attrs.len()
            invariant
                i <= attrs@.len(),
                match result {
                    Some(a) => a.wf(),
                    None => true,
                },
                spec_parse_data_slice(
                    attrs@.skip(i as int),
                    match result {
                        Some(a) => Some(a.model()),
                        None => None,
                    },
                ) == spec_parse_data_slice(attrs@, None),
            decreases attrs@.len() - i,
        {
            let attr = &attrs[i];
            proof {
                assert(attrs@.skip(i as int).first() == attrs@[i as int]);
                assert(attrs@.skip(i as int).drop_first() =~= attrs@.skip(i as int + 1));
            }
            if attr.name == "http".to_owned() {
                if result.is_some() {
                    return Err(AttributeError::Duplicate);
                }
                match Self::parse(attr) {
                    Ok(a) => {
                        result = Some(a);
                    },
                    Err(e) => {
                        return Err(e);
                    },
                }
            }
            i = i + 1;
        }
        proof {
            assert(attrs@.skip(attrs@.len() as int) =~= Seq::<Attr>::empty());
        }
        Ok(result)
    }
}

} // verus!
