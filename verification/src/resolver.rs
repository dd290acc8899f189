use vstd::prelude::*;

use crate::declaration::{HttpError, SpecData, SpecDecl, SpecVariant};
use crate::error::{DeclarationError, SpecDeclarationError};

verus! {

broadcast use vstd::seq::group_seq_axioms, vstd::std_specs::vec::group_vec_axioms;

/// A set of loaded declarations. Delegation and base references between
/// declarations are resolved by name inside this set: references are
/// explicit, never looked up in any ambient registry.
#[derive(Debug, Clone, PartialEq, Eq)]
pub struct Declarations {
    pub decls: Vec<HttpError>,
}

/// The models of a sequence of declarations, elementwise.
pub open spec fn decl_models(decls: Seq<HttpError>) -> Seq<SpecDecl>
    decreases decls.len(),
{
    if decls.len() == 0 {
        Seq::empty()
    } else {
        decl_models(decls.drop_last()).push(decls.last().model())
    }
}

/// `decl_models` maps a sequence of declarations elementwise.
pub proof fn lemma_decl_models(decls: Seq<HttpError>)
    ensures
        decl_models(decls).len() == decls.len(),
        forall|i: int| 0 <= i < decls.len() ==> decl_models(decls)[i] == decls[i].model(),
    decreases decls.len(),
{
    if decls.len() > 0 {
        lemma_decl_models(decls.drop_last());
    }
}

/// The index of the first declaration with the given name, if any.
pub open spec fn spec_find(decls: Seq<SpecDecl>, name: Seq<char>) -> Option<int>
    decreases decls.len(),
{
    if decls.len() == 0 {
        None
    } else if decls.first().name == name {
        Some(0int)
    } else {
        match spec_find(decls.drop_first(), name) {
            Some(i) => Some(i + 1),
            None => None,
        }
    }
}

/// What `spec_find` returns: the first index bearing the name, or nothing
/// when no declaration bears it.
pub proof fn lemma_spec_find(decls: Seq<SpecDecl>, name: Seq<char>)
    ensures
        match spec_find(decls, name) {
            Some(i) => 0 <= i < decls.len() && decls[i].name == name && forall|j: int|
                0 <= j < i ==> (#[trigger] decls[j].name) != name,
            None => forall|j: int| 0 <= j < decls.len() ==> (#[trigger] decls[j].name) != name,
        },
    decreases decls.len(),
{
    if decls.len() > 0 {
        lemma_spec_find(decls.drop_first(), name);
        if decls.first().name != name {
            match spec_find(decls.drop_first(), name) {
                Some(i2) => {
                    assert(decls[i2 + 1] == decls.drop_first()[i2]);
                    assert forall|j: int| 0 <= j < i2 + 1 implies (#[trigger] decls[j].name)
                        != name by {
                        if j > 0 {
                            assert(decls.drop_first()[j - 1].name != name);
                        }
                    }
                },
                None => {
                    assert forall|j: int| 0 <= j < decls.len() implies (#[trigger] decls[j].name)
                        != name by {
                        if j > 0 {
                            assert(decls.drop_first()[j - 1].name != name);
                        }
                    }
                },
            }
        }
    }
}

impl Declarations {
    /// The model of this declaration set.
    pub open spec fn model(self) -> Seq<SpecDecl> {
        decl_models(self.decls@)
    }

    /// Well-formed: every declaration is.
    pub open spec fn wf(self) -> bool {
        forall|i: int| 0 <= i < self.decls@.len() ==> (#[trigger] self.decls@[i]).wf()
    }

    /// The index of the first declaration with the given name, if any.
    pub fn find(&self, name: &String) -> (r: Option<usize>)
        ensures
            match r {
                Some(i) => spec_find(self.model(), name@) == Some(i as int),
                None => spec_find(self.model(), name@) is None,
            },
    {
        proof {
            lemma_decl_models(self.decls@);
            lemma_spec_find(self.model(), name@);
        }
        let mut i: usize = 0;
        while i < self.decls.len()
            invariant
                i <= self.decls@.len(),
                self.model() == decl_models(self.decls@),
                self.model().len() == self.decls@.len(),
                forall|a: int| 0 <= a < self.decls@.len() ==> self.model()[a]
                    == self.decls@[a].model(),
                forall|j: int| 0 <= j < i ==> (#[trigger] self.model()[j].name) != name@,
            decreases self.decls@.len() - i,
        {
            if self.decls[i].name == *name {
                proof {
                    assert(self.model()[i as int].name == name@);
                    lemma_spec_find(self.model(), name@);
                    match spec_find(self.model(), name@) {
                        Some(f) => {
                            if f < i as int {
                                assert(self.model()[f].name != name@);
                                assert(false);
                            }
                            if f > i as int {
                                assert(self.model()[i as int].name != name@);
                                assert(false);
                            }
                        },
                        None => {
                            assert(self.model()[i as int].name != name@);
                            assert(false);
                        },
                    }
                }
                return Some(i);
            }
            i = i + 1;
        }
        proof {
            lemma_spec_find(self.model(), name@);
            if spec_find(self.model(), name@) is Some {
                let f = spec_find(self.model(), name@)->Some_0;
                assert(self.model()[f].name == name@);
                assert(false);
            }
        }
        None
    }
}

/// A concrete error value, the runtime input of a status resolver: a struct
/// error with its named field texts, a unit enum variant, or a variant
/// wrapping an inner value. A terminal variant's payload and a delegating
/// variant's wrapped error are both carried as inner values.
#[derive(Debug, PartialEq, Eq)]
pub enum ErrorValue {
    Struct { fields: Vec<(String, String)> },
    Unit { variant: usize },
    Wrapped { variant: usize, inner: Box<ErrorValue> },
}

/// Mathematical model of an error value.
pub enum SpecValue {
    Struct { fields: Seq<(Seq<char>, Seq<char>)> },
    Unit { variant: int },
    Wrapped { variant: int, inner: Box<SpecValue> },
}

/// The views of a sequence of field texts, elementwise.
pub open spec fn field_models(fields: Seq<(String, String)>) -> Seq<(Seq<char>, Seq<char>)>
    decreases fields.len(),
{
    if fields.len() == 0 {
        Seq::empty()
    } else {
        field_models(fields.drop_last()).push((fields.last().0@, fields.last().1@))
    }
}

/// `field_models` maps a sequence of field texts elementwise.
pub proof fn lemma_field_models(fields: Seq<(String, String)>)
    ensures
        field_models(fields).len() == fields.len(),
        forall|i: int| 0 <= i < fields.len() ==> field_models(fields)[i] == (
            fields[i].0@,
            fields[i].1@,
        ),
    decreases fields.len(),
{
    if fields.len() > 0 {
        lemma_field_models(fields.drop_last());
    }
}

impl ErrorValue {
    /// The model of this error value.
    pub open spec fn model(self) -> SpecValue
        decreases self,
    {
        match self {
            ErrorValue::Struct { fields } => SpecValue::Struct {
                fields: field_models(fields@),
            },
            ErrorValue::Unit { variant } => SpecValue::Unit { variant: variant as int },
            ErrorValue::Wrapped { variant, inner } => SpecValue::Wrapped {
                variant: variant as int,
                inner: Box::new(inner.model()),
            },
        }
    }
}

/// The status code an error value of a declared type resolves to, if it
/// resolves: a struct error always carries its declared status; a terminal
/// variant carries its own declared status whatever it wraps; a delegating
/// variant resolves its wrapped value against the wrapped type's own
/// declaration, recursively, at arbitrary depth. There is no fallback
/// status: where nothing is declared, nothing resolves.
pub open spec fn spec_status(decls: Seq<SpecDecl>, d: int, v: SpecValue) -> Option<u16>
    decreases v,
{
    if !(0 <= d < decls.len()) {
        None
    } else {
        match decls[d].data {
            SpecData::Struct(s) => match v {
                SpecValue::Struct { .. } => match s.attribute.status {
                    Some(st) => Some(st.code),
                    None => None,
                },
                _ => None,
            },
            SpecData::Enum(e) => match v {
                SpecValue::Struct { .. } => None,
                SpecValue::Unit { variant } => if 0 <= variant < e.variants.len() {
                    spec_terminal_status(e.variants[variant])
                } else {
                    None
                },
                SpecValue::Wrapped { variant, inner } => if 0 <= variant < e.variants.len() {
                    let var = e.variants[variant];
                    if var.attribute is Some {
                        spec_terminal_status(var)
                    } else {
                        match var.field {
                            Some(target) => match spec_find(decls, target) {
                                Some(j) => spec_status(decls, j, *inner),
                                None => None,
                            },
                            None => None,
                        }
                    }
                } else {
                    None
                },
            },
        }
    }
}

/// The status a terminal variant declares, if its metadata carries one.
pub open spec fn spec_terminal_status(var: SpecVariant) -> Option<u16> {
    match var.attribute {
        Some(a) => match a.status {
            Some(st) => Some(st.code),
            None => None,
        },
        None => None,
    }
}

impl Declarations {
    /// The status code an error value of declaration `d` resolves to, if it
    /// resolves; delegation chains are followed lazily, at call time.
    pub fn status(&self, d: usize, value: &ErrorValue) -> (r: Option<u16>)
        ensures
            r == spec_status(self.model(), d as int, value.model()),
        decreases value,
    {
        proof {
            lemma_decl_models(self.decls@);
        }
        if d >= self.decls.len() {
            return None;
        }
        match (&self.decls[d].data, value) {
            (crate::declaration::HttpErrorData::Struct(s), ErrorValue::Struct { .. }) => {
                match &s.attribute.status {
                    Some(st) => Some(st.code),
                    None => None,
                }
            },
            (crate::declaration::HttpErrorData::Struct(_), _) => None,
            (crate::declaration::HttpErrorData::Enum(_), ErrorValue::Struct { .. }) => None,
            (crate::declaration::HttpErrorData::Enum(e), ErrorValue::Unit { variant }) => {
                proof {
                    crate::declaration::HttpErrorEnum::lemma_variant_models(e.variants@);
                }
                if *variant < e.variants.len() {
                    match &e.variants[*variant].attribute {
                        Some(a) => match &a.status {
                            Some(st) => Some(st.code),
                            None => None,
                        },
                        None => None,
                    }
                } else {
                    None
                }
            },
            (crate::declaration::HttpErrorData::Enum(e), ErrorValue::Wrapped { variant, inner }) => {
                proof {
                    crate::declaration::HttpErrorEnum::lemma_variant_models(e.variants@);
                }
                if *variant < e.variants.len() {
                    let var = &e.variants[*variant];
                    match &var.attribute {
                        Some(a) => match &a.status {
                            Some(st) => Some(st.code),
                            None => None,
                        },
                        None => match &var.field {
                            Some(target) => match self.find(target) {
                                Some(j) => self.status(j, inner),
                                None => None,
                            },
                            None => None,
                        },
                    }
                } else {
                    None
                }
            },
        }
    }
}

/// The outcome of generating a status resolver for declaration `d`, with
/// recursion bounded by `fuel`: a struct resolves by itself; an enum
/// resolves when every variant does. Exhausted fuel means the delegation
/// graph cannot be acyclic, since an acyclic chain visits each declaration
/// at most once.
pub open spec fn spec_check_resolver(decls: Seq<SpecDecl>, d: int, fuel: nat) -> Result<
    (),
    SpecDeclarationError,
>
    decreases fuel, 1nat, 0nat,
{
    if fuel == 0 {
        Err(SpecDeclarationError::CyclicDelegation)
    } else if !(0 <= d < decls.len()) {
        Err(SpecDeclarationError::CyclicDelegation)
    } else {
        match decls[d].data {
            SpecData::Struct(_) => Ok(()),
            SpecData::Enum(e) => spec_check_variants(decls, e.variants, fuel),
        }
    }
}

/// The outcome of checking that each variant in order resolves: a terminal
/// variant resolves by its metadata; a delegating variant resolves when its
/// target is declared and itself resolves; a variant with neither usable
/// field nor metadata never resolves and is never defaulted.
pub open spec fn spec_check_variants(decls: Seq<SpecDecl>, vars: Seq<SpecVariant>, fuel: nat) -> Result<
    (),
    SpecDeclarationError,
>
    decreases fuel, 0nat, vars.len(),
{
    if vars.len() == 0 {
        Ok(())
    } else {
        match spec_check_variant(decls, vars.first(), fuel) {
            Ok(u) => spec_check_variants(decls, vars.drop_first(), fuel),
            Err(e) => Err(e),
        }
    }
}

/// The outcome of checking that one variant resolves.
pub open spec fn spec_check_variant(decls: Seq<SpecDecl>, var: SpecVariant, fuel: nat) -> Result<
    (),
    SpecDeclarationError,
>
    decreases fuel, 0nat, 0nat,
{
    if var.attribute is Some {
        Ok(())
    } else {
        match var.field {
            Some(target) => match spec_find(decls, target) {
                Some(j) => if fuel == 0 {
                    Err(SpecDeclarationError::CyclicDelegation)
                } else {
                    spec_check_resolver(decls, j, (fuel - 1) as nat)
                },
                None => Err(SpecDeclarationError::Unresolvable(var.name)),
            },
            None => Err(SpecDeclarationError::Unresolvable(var.name)),
        }
    }
}

impl Declarations {
    /// Generates nothing but the guarantee: every reachable variant of
    /// declaration `d` resolves to a status, or the declaration error that
    /// forbids generation — an unresolvable variant, or cyclic delegation.
    pub fn check_resolver(&self, d: usize) -> (r: Result<(), DeclarationError>)
        ensures
            match r {
                Ok(u) => spec_check_resolver(
                    self.model(),
                    d as int,
                    (self.model().len() + 1) as nat,
                ) is Ok,
                Err(e) => spec_check_resolver(
                    self.model(),
                    d as int,
                    (self.model().len() + 1) as nat,
                ) == Err::<(), _>(e.model()),
            },
    {
        proof {
            lemma_decl_models(self.decls@);
        }
        let fuel = self.decls.len();
        self.check_resolver_fuel(d, fuel, Ghost((fuel + 1) as nat))
    }

    /// Checks that every reachable variant of declaration `d` resolves,
    /// consuming one unit of fuel per delegation hop.
    fn check_resolver_fuel(&self, d: usize, fuel: usize, spec_fuel: Ghost<nat>) -> (r: Result<
        (),
        DeclarationError,
    >)
        requires
            spec_fuel@ == fuel + 1,
        ensures
            match r {
                Ok(u) => spec_check_resolver(self.model(), d as int, spec_fuel@) is Ok,
                Err(e) => spec_check_resolver(self.model(), d as int, spec_fuel@) == Err::<
                    (),
                    _,
                >(e.model()),
            },
        decreases fuel,
    {
        proof {
            lemma_decl_models(self.decls@);
        }
        if d >= self.decls.len() {
            return Err(DeclarationError::CyclicDelegation);
        }
        let e = match &self.decls[d].data {
            crate::declaration::HttpErrorData::Struct(_) => {
                return Ok(());
            },
            crate::declaration::HttpErrorData::Enum(e) => e,
        };
        let ghost vars = self.decls@[d as int].model().data->Enum_0.variants;
        proof {
            crate::declaration::HttpErrorEnum::lemma_variant_models(e.variants@);
            assert(vars.skip(0) =~= vars);
        }
        let mut i: usize = 0;
        while i < e.variants.len()
            invariant
                i <= e.variants@.len(),
                d < self.decls@.len(),
                self.model() == decl_models(self.decls@),
                self.model().len() == self.decls@.len(),
                forall|a: int| 0 <= a < self.decls@.len() ==> self.model()[a]
                    == self.decls@[a].model(),
                self.decls@[d as int].data matches crate::declaration::HttpErrorData::Enum(en)
                    && en == *e,
                vars == self.model()[d as int].data->Enum_0.variants,
                vars.len() == e.variants@.len(),
                forall|a: int| 0 <= a < e.variants@.len() ==> vars[a] == e.variants@[a].model(),
                spec_fuel@ == fuel + 1,
                spec_check_variants(self.model(), vars.skip(i as int), spec_fuel@)
                    == spec_check_variants(self.model(), vars, spec_fuel@),
            decreases e.variants@.len() - i,
        {
            proof {
                assert(vars.skip(i as int).first() == vars[i as int]);
                assert(vars.skip(i as int).drop_first() =~= vars.skip(i as int + 1));
            }
            let var = &e.variants[i];
            if var.attribute.is_none() {
                match &var.field {
                    Some(target) => {
                        match self.find(target) {
                            Some(j) => {
                                if fuel == 0 {
                                    proof {
                                        assert(spec_check_variant(
                                            self.model(),
                                            vars[i as int],
                                            spec_fuel@,
                                        ) == Err::<(), SpecDeclarationError>(
                                            SpecDeclarationError::CyclicDelegation,
                                        ));
                                        assert(spec_check_variants(
                                            self.model(),
                                            vars.skip(i as int),
                                            spec_fuel@,
                                        ) == Err::<(), SpecDeclarationError>(
                                            SpecDeclarationError::CyclicDelegation,
                                        ));
                                        assert(spec_check_resolver(
                                            self.model(),
                                            d as int,
                                            spec_fuel@,
                                        ) == Err::<(), SpecDeclarationError>(
                                            SpecDeclarationError::CyclicDelegation,
                                        ));
                                    }
                                    return Err(DeclarationError::CyclicDelegation);
                                }
                                match self.check_resolver_fuel(
                                    j,
                                    fuel - 1,
                                    Ghost(fuel as nat),
                                ) {
                                    Ok(_) => {},
                                    Err(err) => {
                                        proof {
                                            assert(spec_check_variant(
                                                self.model(),
                                                vars[i as int],
                                                spec_fuel@,
                                            ) == Err::<(), SpecDeclarationError>(err.model()));
                                            assert(spec_check_variants(
                                                self.model(),
                                                vars.skip(i as int),
                                                spec_fuel@,
                                            ) == Err::<(), SpecDeclarationError>(err.model()));
                                            assert(spec_check_resolver(
                                                self.model(),
                                                d as int,
                                                spec_fuel@,
                                            ) == Err::<(), SpecDeclarationError>(err.model()));
                                        }
                                        return Err(err);
                                    },
                                }
                            },
                            None => {
                                return Err(DeclarationError::Unresolvable(var.name.clone()));
                            },
                        }
                    },
                    None => {
                        return Err(DeclarationError::Unresolvable(var.name.clone()));
                    },
                }
            }
            i = i + 1;
        }
        proof {
            assert(vars.skip(vars.len() as int) =~= Seq::<SpecVariant>::empty());
        }
        Ok(())
    }
}

/// Spec-level well-formedness of one declaration, as the loader
/// establishes it: declared metadata carries a status, and a usable field
/// stands only on a variant declared with a field.
pub open spec fn spec_decl_wf(d: SpecDecl) -> bool {
    match d.data {
        SpecData::Struct(s) => s.attribute.status is Some,
        SpecData::Enum(e) => forall|i: int|
            0 <= i < e.variants.len() ==> {
                let var = #[trigger] e.variants[i];
                &&& match var.attribute {
                    Some(a) => a.status is Some,
                    None => true,
                }
                &&& var.field is Some ==> var.has_field
            },
    }
}

/// Spec-level well-formedness of a declaration set.
pub open spec fn spec_decls_wf(decls: Seq<SpecDecl>) -> bool {
    forall|i: int| 0 <= i < decls.len() ==> spec_decl_wf(#[trigger] decls[i])
}

impl Declarations {
    /// A well-formed declaration set is well-formed at the model level.
    pub proof fn lemma_wf_model(self)
        requires
            self.wf(),
        ensures
            spec_decls_wf(self.model()),
    {
        lemma_decl_models(self.decls@);
        assert forall|i: int| 0 <= i < self.model().len() implies spec_decl_wf(
            #[trigger] self.model()[i],
        ) by {
            assert(self.decls@[i].wf());
            match &self.decls@[i].data {
                crate::declaration::HttpErrorData::Struct(s) => {
                    assert(s.wf());
                },
                crate::declaration::HttpErrorData::Enum(e) => {
                    crate::declaration::HttpErrorEnum::lemma_variant_models(e.variants@);
                    let se = self.model()[i].data->Enum_0;
                    assert forall|b: int| 0 <= b < se.variants.len() implies {
                        let var = #[trigger] se.variants[b];
                        &&& match var.attribute {
                            Some(a) => a.status is Some,
                            None => true,
                        }
                        &&& var.field is Some ==> var.has_field
                    } by {
                        assert(e.variants@[b].wf());
                        assert(se.variants[b] == e.variants@[b].model());
                    }
                },
            }
        }
    }
}

/// Whether an error value's shape fits a declaration: a struct value for a
/// struct declaration; for an enum, a unit value of a fieldless variant, or
/// a wrapping value of a variant with a field whose inner value, for a
/// delegating variant, fits the wrapped type's declaration in turn.
pub open spec fn spec_conforms(decls: Seq<SpecDecl>, d: int, v: SpecValue) -> bool
    decreases v,
{
    0 <= d < decls.len() && match decls[d].data {
        SpecData::Struct(_) => v is Struct,
        SpecData::Enum(e) => match v {
            SpecValue::Struct { .. } => false,
            SpecValue::Unit { variant } => 0 <= variant < e.variants.len()
                && !e.variants[variant].has_field,
            SpecValue::Wrapped { variant, inner } => 0 <= variant < e.variants.len()
                && e.variants[variant].has_field && (e.variants[variant].attribute is Some || (
            match e.variants[variant].field {
                Some(target) => match spec_find(decls, target) {
                    Some(j) => spec_conforms(decls, j, *inner),
                    None => false,
                },
                None => false,
            })),
        },
    }
}

/// Each variant of a successfully checked sequence is itself checked.
pub proof fn lemma_check_variants_ok(
    decls: Seq<SpecDecl>,
    vars: Seq<SpecVariant>,
    fuel: nat,
    i: int,
)
    requires
        spec_check_variants(decls, vars, fuel) is Ok,
        0 <= i < vars.len(),
    ensures
        spec_check_variant(decls, vars[i], fuel) is Ok,
    decreases i,
{
    if i > 0 {
        lemma_check_variants_ok(decls, vars.drop_first(), fuel, i - 1);
        assert(vars.drop_first()[i - 1] == vars[i]);
    }
}

/// The generated resolver is total: where resolver generation succeeds for
/// a well-formed declaration set, every value whose shape fits the
/// declaration resolves to a status — no reachable variant is left without
/// one, and nothing is ever silently defaulted.
pub proof fn lemma_resolver_total(decls: Seq<SpecDecl>, d: int, v: SpecValue, fuel: nat)
    requires
        spec_decls_wf(decls),
        spec_check_resolver(decls, d, fuel) is Ok,
        spec_conforms(decls, d, v),
    ensures
        spec_status(decls, d, v) is Some,
    decreases v,
{
    assert(spec_decl_wf(decls[d]));
    match decls[d].data {
        SpecData::Struct(_) => {},
        SpecData::Enum(e) => {
            match v {
                SpecValue::Struct { .. } => {},
                SpecValue::Unit { variant } => {
                    lemma_check_variants_ok(decls, e.variants, fuel, variant);
                    let var = e.variants[variant];
                    assert(var.attribute is Some);
                },
                SpecValue::Wrapped { variant, inner } => {
                    lemma_check_variants_ok(decls, e.variants, fuel, variant);
                    let var = e.variants[variant];
                    if var.attribute is None {
                        let target = var.field->Some_0;
                        let j = spec_find(decls, target)->Some_0;
                        lemma_spec_find(decls, target);
                        lemma_resolver_total(decls, j, *inner, (fuel - 1) as nat);
                    }
                },
            }
        },
    }
}

/// A struct error resolves to its declared status, for every constructible
/// value of it.
pub proof fn lemma_struct_status(decls: Seq<SpecDecl>, d: int, v: SpecValue, code: u16)
    requires
        0 <= d < decls.len(),
        decls[d].data matches SpecData::Struct(s) && spec_terminal_data_status(s.attribute.status)
            == Some(code),
        v is Struct,
    ensures
        spec_status(decls, d, v) == Some(code),
{
}

/// The status an optional declared status carries.
pub open spec fn spec_terminal_data_status(status: Option<crate::status::SpecStatus>) -> Option<
    u16,
> {
    match status {
        Some(st) => Some(st.code),
        None => None,
    }
}

/// A terminal variant resolves to its declared status, whether its value
/// wraps a payload or not.
pub proof fn lemma_terminal_status(
    decls: Seq<SpecDecl>,
    d: int,
    variant: int,
    inner: Option<Box<SpecValue>>,
    code: u16,
)
    requires
        0 <= d < decls.len(),
        decls[d].data matches SpecData::Enum(e) && {
            &&& 0 <= variant < e.variants.len()
            &&& spec_terminal_status(e.variants[variant]) == Some(code)
        },
    ensures
        spec_status(
            decls,
            d,
            match inner {
                Some(w) => SpecValue::Wrapped { variant, inner: w },
                None => SpecValue::Unit { variant },
            },
        ) == Some(code),
{
}

/// A delegating variant resolves to whatever its wrapped value resolves to
/// against the wrapped type's declaration, recursively through arbitrary
/// delegation depth.
pub proof fn lemma_delegating_status(decls: Seq<SpecDecl>, d: int, variant: int, w: SpecValue)
    requires
        0 <= d < decls.len(),
        decls[d].data matches SpecData::Enum(e) && {
            &&& 0 <= variant < e.variants.len()
            &&& e.variants[variant].attribute is None
            &&& e.variants[variant].field matches Some(target) && spec_find(decls, target) is Some
        },
    ensures
        ({
            let e = decls[d].data->Enum_0;
            let target = e.variants[variant].field->Some_0;
            let j = spec_find(decls, target)->Some_0;
            spec_status(
                decls,
                d,
                SpecValue::Wrapped { variant, inner: Box::new(w) },
            ) == spec_status(decls, j, w)
        }),
{
}

} // verus!
