use vstd::prelude::*;

use crate::attribute::SpecDataAttribute;
use crate::declaration::{HttpErrorData, SpecData, SpecDecl, SpecStruct, SpecVariant};
use crate::error::{DeclarationError, SpecDeclarationError};
use crate::merge::{
    all_statuses_valid, cat_models, lemma_cat_models, merge_responses, spec_canonical, spec_merge,
};
use crate::resolver::{decl_models, lemma_decl_models, spec_find, spec_terminal_status, Declarations};
use crate::schema::{
    CatalogueEntry, ContentEntry, ResponseCatalogue, ResponseDescriptor, Schema, SpecCatalogue,
    SpecDescriptor, SpecSchema,
};
use crate::status::{
    canonical_reason, lemma_status_text_round_trip, reason_of, spec_code_of, spec_parse_status,
    spec_raw_status, spec_status_name_code, spec_status_text, spec_valid_status, status_text,
    SpecRawStatus,
};

verus! {

broadcast use vstd::seq::group_seq_axioms, vstd::std_specs::vec::group_vec_axioms;

/// Every status code a named constant denotes is a valid status code.
pub proof fn lemma_name_code_valid(name: Seq<char>)
    ensures
        match spec_status_name_code(name) {
            Some(code) => spec_valid_status(code as int),
            None => true,
        },
{
}

/// Every status code a valid raw token denotes is a valid status code.
pub proof fn lemma_raw_status_valid(raw: SpecRawStatus)
    ensures
        match spec_raw_status(raw) {
            Some(code) => spec_valid_status(code as int),
            None => true,
        },
{
    match raw {
        SpecRawStatus::Ident(name) => lemma_name_code_valid(name),
        SpecRawStatus::Lit(_) => {},
    }
}

/// The catalogue contributed for one status code and optional payload
/// schema: one entry, whose description is the code's canonical reason and
/// whose content serves the schema as JSON, if a schema is given.
pub open spec fn spec_single_catalogue(code: u16, schema: Option<Seq<char>>) -> SpecCatalogue {
    Map::empty().insert(
        spec_status_text(code),
        SpecDescriptor {
            description: reason_of(code as int),
            content: match schema {
                Some(p) => Map::empty().insert("application/json"@, SpecSchema::Ref(p)),
                None => Map::empty(),
            },
        },
    )
}

/// The catalogue of a struct declaration: its declared status, with the
/// struct's own payload schema.
pub open spec fn spec_struct_catalogue(s: SpecStruct) -> SpecCatalogue {
    spec_single_catalogue(s.attribute.status->Some_0.code, s.schema)
}

/// The catalogue contributed by a terminal variant: its declared status,
/// with its field's schema if it has a usable field.
pub open spec fn spec_terminal_catalogue(var: SpecVariant) -> SpecCatalogue {
    spec_single_catalogue(spec_terminal_status(var)->Some_0, var.field)
}

/// Whether metadata requests documentation integration.
pub open spec fn spec_doc_enabled(attr: Option<SpecDataAttribute>) -> bool {
    match attr {
        Some(a) => a.utoipa,
        None => false,
    }
}

/// Whether a declaration offers a catalogue: it does when it requests
/// documentation integration.
pub open spec fn spec_decl_has_catalogue(d: SpecDecl) -> bool {
    match d.data {
        SpecData::Struct(s) => s.attribute.utoipa,
        SpecData::Enum(e) => spec_doc_enabled(e.attribute),
    }
}

/// The catalogues contributed by a referenced declaration: its own
/// catalogue where it offers one; where it offers none — it is not declared
/// in the set, or does not request documentation integration — that
/// absence is an error only when the referring declaration requests
/// documentation integration, and is tolerated otherwise.
pub open spec fn spec_target_contrib(
    decls: Seq<SpecDecl>,
    target: Seq<char>,
    self_doc: bool,
    fuel: nat,
) -> Result<Seq<SpecCatalogue>, SpecDeclarationError>
    decreases fuel, 0nat, 0nat,
{
    match spec_find(decls, target) {
        Some(j) => if spec_decl_has_catalogue(decls[j]) {
            if fuel == 0 {
                Err(SpecDeclarationError::CyclicDelegation)
            } else {
                match spec_responses(decls, j, (fuel - 1) as nat) {
                    Ok(c) => Ok(seq![c]),
                    Err(e) => Err(e),
                }
            }
        } else if self_doc {
            Err(SpecDeclarationError::MissingCatalogue(target))
        } else {
            Ok(Seq::empty())
        },
        None => if self_doc {
            Err(SpecDeclarationError::MissingCatalogue(target))
        } else {
            Ok(Seq::empty())
        },
    }
}

/// The catalogues contributed by one variant: a terminal variant
/// contributes its own entry; a delegating variant contributes the wrapped
/// type's catalogue, obtained recursively; a variant with neither usable
/// field nor metadata cannot be generated for.
pub open spec fn spec_variant_contrib(
    decls: Seq<SpecDecl>,
    var: SpecVariant,
    self_doc: bool,
    fuel: nat,
) -> Result<Seq<SpecCatalogue>, SpecDeclarationError>
    decreases fuel, 0nat, 1nat,
{
    match var.attribute {
        Some(_) => Ok(seq![spec_terminal_catalogue(var)]),
        None => match var.field {
            Some(target) => spec_target_contrib(decls, target, self_doc, fuel),
            None => Err(SpecDeclarationError::Unresolvable(var.name)),
        },
    }
}

/// The catalogues contributed by a sequence of variants, in order.
pub open spec fn spec_variant_contribs(
    decls: Seq<SpecDecl>,
    vars: Seq<SpecVariant>,
    self_doc: bool,
    fuel: nat,
) -> Result<Seq<SpecCatalogue>, SpecDeclarationError>
    decreases fuel, 1nat, vars.len(),
{
    if vars.len() == 0 {
        Ok(Seq::empty())
    } else {
        match spec_variant_contrib(decls, vars.first(), self_doc, fuel) {
            Ok(head) => match spec_variant_contribs(decls, vars.drop_first(), self_doc, fuel) {
                Ok(rest) => Ok(head + rest),
                Err(e) => Err(e),
            },
            Err(e) => Err(e),
        }
    }
}

/// The catalogues contributed by a declared base reference, if any: the
/// base's entries are unconditionally unioned into the derived catalogue.
pub open spec fn spec_base_contribs(
    decls: Seq<SpecDecl>,
    attr: Option<SpecDataAttribute>,
    self_doc: bool,
    fuel: nat,
) -> Result<Seq<SpecCatalogue>, SpecDeclarationError>
    decreases fuel, 2nat, 0nat,
{
    match attr {
        Some(a) => match a.base {
            Some(bname) => spec_target_contrib(decls, bname, self_doc, fuel),
            None => Ok(Seq::empty()),
        },
        None => Ok(Seq::empty()),
    }
}

/// The response catalogue of declaration `d`, with recursion bounded by
/// `fuel`: a struct's own entry, or for an enum the merge of the base
/// catalogue, if declared, with the variants' contributions. An empty
/// aggregate is valid output; a single contributing catalogue is returned
/// unchanged. Exhausted fuel means the delegation graph cannot be acyclic.
pub open spec fn spec_responses(decls: Seq<SpecDecl>, d: int, fuel: nat) -> Result<
    SpecCatalogue,
    SpecDeclarationError,
>
    decreases fuel, 3nat, 0nat,
{
    if fuel == 0 {
        Err(SpecDeclarationError::CyclicDelegation)
    } else if !(0 <= d < decls.len()) {
        Err(SpecDeclarationError::CyclicDelegation)
    } else {
        match decls[d].data {
            SpecData::Struct(s) => Ok(spec_struct_catalogue(s)),
            SpecData::Enum(e) => {
                let self_doc = spec_doc_enabled(e.attribute);
                match spec_base_contribs(decls, e.attribute, self_doc, fuel) {
                    Err(err) => Err(err),
                    Ok(base) => match spec_variant_contribs(decls, e.variants, self_doc, fuel) {
                        Err(err) => Err(err),
                        Ok(vc) => {
                            let all = base + vc;
                            if all.len() == 0 {
                                Ok(Map::empty())
                            } else if all.len() == 1 {
                                Ok(all[0])
                            } else {
                                Ok(spec_merge(all))
                            }
                        },
                    },
                }
            },
        }
    }
}

/// The one-entry catalogue for a status code and optional payload schema.
fn single_catalogue(code: u16, schema: Option<&String>) -> (r: ResponseCatalogue)
    requires
        spec_valid_status(code as int),
    ensures
        r.model() == spec_single_catalogue(
            code,
            match schema {
                Some(p) => Some(p@),
                None => None,
            },
        ),
        r.wf(),
        spec_canonical(r.model()),
{
    let description = canonical_reason(code);
    let content: Vec<ContentEntry> = match schema {
        Some(p) => vec![
            ContentEntry { content_type: "application/json".to_owned(), schema: Schema::Ref(p.clone()) },
        ],
        None => Vec::new(),
    };
    let key = status_text(code);
    let entry = CatalogueEntry { status: key, descriptor: ResponseDescriptor { description, content } };
    let r = ResponseCatalogue { entries: vec![entry] };
    proof {
        lemma_status_text_round_trip(code);
        let entries = r.entries@;
        assert(entries.drop_last() =~= Seq::<CatalogueEntry>::empty());
        assert(ResponseCatalogue::entry_map(Seq::<CatalogueEntry>::empty()) =~= Map::<
            Seq<char>,
            SpecDescriptor,
        >::empty());
        match schema {
            Some(p) => {
                let centries = entry.descriptor.content@;
                assert(centries.drop_last() =~= Seq::<ContentEntry>::empty());
                assert(ResponseDescriptor::content_map(Seq::<ContentEntry>::empty()) =~= Map::<
                    Seq<char>,
                    SpecSchema,
                >::empty());
                assert(r.model() =~~= spec_single_catalogue(code, Some(p@)));
            },
            None => {
                assert(ResponseDescriptor::content_map(entry.descriptor.content@) =~= Map::<
                    Seq<char>,
                    SpecSchema,
                >::empty());
                assert(r.model() =~~= spec_single_catalogue(code, None));
            },
        }
        assert forall|k: Seq<char>| #[trigger] r.model().contains_key(k) implies spec_parse_status(
            k,
        ) is Some && r.model()[k].description == reason_of(spec_code_of(k) as int) by {
            assert(k == spec_status_text(code));
        }
    }
    r
}

impl Declarations {
    /// The response catalogue derived for declaration `d`: the declaration
    /// must carry well-formed metadata, and its delegation graph must be
    /// acyclic; the derived catalogue's keys are valid status texts and its
    /// descriptions are the canonical reasons of their statuses.
    pub fn responses(&self, d: usize) -> (r: Result<ResponseCatalogue, DeclarationError>)
        requires
            self.wf(),
        ensures
            match r {
                Ok(c) => spec_responses(self.model(), d as int, (self.model().len() + 1) as nat)
                    == Ok::<_, SpecDeclarationError>(c.model()) && c.wf() && spec_canonical(
                    c.model(),
                ),
                Err(e) => spec_responses(self.model(), d as int, (self.model().len() + 1) as nat)
                    == Err::<SpecCatalogue, _>(e.model()),
            },
    {
        proof {
            lemma_decl_models(self.decls@);
        }
        let fuel = self.decls.len();
        self.responses_fuel(d, fuel, Ghost((fuel + 1) as nat))
    }

    /// The catalogues a referenced declaration contributes, if it offers
    /// one.
    fn target_contrib(
        &self,
        target: &String,
        self_doc: bool,
        fuel: usize,
        spec_fuel: Ghost<nat>,
    ) -> (r: Result<Option<ResponseCatalogue>, DeclarationError>)
        requires
            self.wf(),
            spec_fuel@ == fuel + 1,
        ensures
            match r {
                Ok(None) => spec_target_contrib(self.model(), target@, self_doc, spec_fuel@) == Ok::<
                    _,
                    SpecDeclarationError,
                >(Seq::<SpecCatalogue>::empty()),
                Ok(Some(c)) => spec_target_contrib(self.model(), target@, self_doc, spec_fuel@)
                    == Ok::<_, SpecDeclarationError>(seq![c.model()]) && c.wf() && spec_canonical(
                    c.model(),
                ),
                Err(e) => spec_target_contrib(self.model(), target@, self_doc, spec_fuel@) == Err::<
                    Seq<SpecCatalogue>,
                    _,
                >(e.model()),
            },
        decreases fuel, 0int,
    {
        proof {
            lemma_decl_models(self.decls@);
        }
        match self.find(target) {
            Some(j) => {
                proof {
                    crate::resolver::lemma_spec_find(self.model(), target@);
                    assert(j < self.decls@.len());
                }
                let has_catalogue = match self.decls[j].data.attribute() {
                    Some(a) => a.utoipa,
                    None => false,
                };
                proof {
                    assert(self.model()[j as int].data == self.decls@[j as int].data.model());
                    assert(has_catalogue == spec_decl_has_catalogue(self.model()[j as int]));
                }
                if has_catalogue {
                    if fuel == 0 {
                        return Err(DeclarationError::CyclicDelegation);
                    }
                    match self.responses_fuel(j, fuel - 1, Ghost(fuel as nat)) {
                        Ok(c) => Ok(Some(c)),
                        Err(e) => Err(e),
                    }
                } else if self_doc {
                    Err(DeclarationError::MissingCatalogue(target.clone()))
                } else {
                    Ok(None)
                }
            },
            None => {
                if self_doc {
                    Err(DeclarationError::MissingCatalogue(target.clone()))
                } else {
                    Ok(None)
                }
            },
        }
    }

    /// The response catalogue of declaration `d`, consuming one unit of
    /// fuel per delegation hop.
    fn responses_fuel(&self, d: usize, fuel: usize, spec_fuel: Ghost<nat>) -> (r: Result<
        ResponseCatalogue,
        DeclarationError,
    >)
        requires
            self.wf(),
            spec_fuel@ == fuel + 1,
        ensures
            match r {
                Ok(c) => spec_responses(self.model(), d as int, spec_fuel@) == Ok::<
                    _,
                    SpecDeclarationError,
                >(c.model()) && c.wf() && spec_canonical(c.model()),
                Err(e) => spec_responses(self.model(), d as int, spec_fuel@) == Err::<
                    SpecCatalogue,
                    _,
                >(e.model()),
            },
        decreases fuel, 1int,
    {
        proof {
            lemma_decl_models(self.decls@);
        }
        if d >= self.decls.len() {
            return Err(DeclarationError::CyclicDelegation);
        }
        let e = match &self.decls[d].data {
            HttpErrorData::Struct(s) => {
                let code = match &s.attribute.status {
                    Some(st) => st.code,
                    None => {
                        proof {
                            assert(self.decls@[d as int].wf());
                            assert(false);
                        }
                        unreached()
                    },
                };
                proof {
                    assert(self.decls@[d as int].wf());
                    let st = s.attribute.status->Some_0;
                    lemma_raw_status_valid(st.raw.model());
                }
                let c = single_catalogue(code, s.schema.as_ref());
                return Ok(c);
            },
            HttpErrorData::Enum(e) => e,
        };
        let self_doc = match &e.attribute {
            Some(a) => a.utoipa,
            None => false,
        };
        let ghost sd = self.model()[d as int].data->Enum_0;
        proof {
            crate::declaration::HttpErrorEnum::lemma_variant_models(e.variants@);
            assert(self_doc == spec_doc_enabled(sd.attribute));
        }
        let mut contribs: Vec<ResponseCatalogue> = Vec::new();
        let base_name: Option<&String> = match &e.attribute {
            Some(a) => a.base.as_ref(),
            None => None,
        };
        match base_name {
            Some(bname) => {
                match self.target_contrib(bname, self_doc, fuel, spec_fuel) {
                    Ok(Some(c)) => {
                        contribs.push(c);
                    },
                    Ok(None) => {},
                    Err(err) => {
                        proof {
                            assert(spec_base_contribs(self.model(), sd.attribute, self_doc, spec_fuel@)
                                == Err::<Seq<SpecCatalogue>, SpecDeclarationError>(err.model()));
                        }
                        return Err(err);
                    },
                }
            },
            None => {},
        }
        let ghost bs = spec_base_contribs(self.model(), sd.attribute, self_doc, spec_fuel@)->Ok_0;
        proof {
            assert(spec_base_contribs(self.model(), sd.attribute, self_doc, spec_fuel@) == Ok::<
                _,
                SpecDeclarationError,
            >(bs));
            lemma_cat_models(contribs@);
            assert(cat_models(contribs@) =~= bs);
        }
        let ghost vars = sd.variants;
        proof {
            assert(vars.skip(0) =~= vars);
        }
        let mut i: usize = 0;
        while i < e.variants.len()
            invariant
                i <= e.variants@.len(),
                d < self.decls@.len(),
                self.wf(),
                spec_fuel@ == fuel + 1,
                self.model() == decl_models(self.decls@),
                self.model().len() == self.decls@.len(),
                forall|a: int| 0 <= a < self.decls@.len() ==> self.model()[a]
                    == self.decls@[a].model(),
                self.decls@[d as int].data matches HttpErrorData::Enum(en) && en == *e,
                sd == self.model()[d as int].data->Enum_0,
                self_doc == spec_doc_enabled(sd.attribute),
                vars == sd.variants,
                vars.len() == e.variants@.len(),
                forall|a: int| 0 <= a < e.variants@.len() ==> vars[a] == e.variants@[a].model(),
                spec_base_contribs(self.model(), sd.attribute, self_doc, spec_fuel@) == Ok::<
                    _,
                    SpecDeclarationError,
                >(bs),
                forall|a: int|
                    0 <= a < contribs@.len() ==> (#[trigger] contribs@[a]).wf() && spec_canonical(
                        contribs@[a].model(),
                    ),
                match spec_variant_contribs(self.model(), vars.skip(i as int), self_doc, spec_fuel@) {
                    Ok(rest) => spec_variant_contribs(self.model(), vars, self_doc, spec_fuel@)
                        == Ok::<_, SpecDeclarationError>(
                        cat_models(contribs@).skip(bs.len() as int) + rest,
                    ) && cat_models(contribs@).take(bs.len() as int) =~= bs && contribs@.len()
                        >= bs.len(),
                    Err(err) => spec_variant_contribs(self.model(), vars, self_doc, spec_fuel@)
                        == Err::<Seq<SpecCatalogue>, SpecDeclarationError>(err),
                },
            decreases e.variants@.len() - i,
        {
            proof {
                assert(vars.skip(i as int).first() == vars[i as int]);
                assert(vars.skip(i as int).drop_first() =~= vars.skip(i as int + 1));
                lemma_cat_models(contribs@);
            }
            let ghost pre_contribs = contribs@;
            let var = &e.variants[i];
            match &var.attribute {
                Some(a) => {
                    let code = match &a.status {
                        Some(st) => st.code,
                        None => {
                            proof {
                                assert(self.decls@[d as int].wf());
                                assert(e.variants@[i as int].wf());
                                assert(false);
                            }
                            unreached()
                        },
                    };
                    proof {
                        assert(self.decls@[d as int].wf());
                        assert(e.variants@[i as int].wf());
                        let st = a.status->Some_0;
                        lemma_raw_status_valid(st.raw.model());
                        assert(code == spec_terminal_status(vars[i as int])->Some_0);
                    }
                    let c = single_catalogue(code, var.field.as_ref());
                    proof {
                        assert(c.model() == spec_terminal_catalogue(vars[i as int]));
                    }
                    contribs.push(c);
                    proof {
                        assert(contribs@.drop_last() =~= pre_contribs);
                        lemma_cat_models(contribs@);
                        lemma_cat_models(pre_contribs);
                        assert(cat_models(contribs@) =~= cat_models(pre_contribs).push(c.model()));
                        assert(cat_models(contribs@).skip(pre_contribs.len() as int) =~= seq![
                            c.model(),
                        ]);
                        assert(spec_variant_contrib(self.model(), vars[i as int], self_doc, spec_fuel@)
                            == Ok::<_, SpecDeclarationError>(
                            cat_models(contribs@).skip(pre_contribs.len() as int),
                        ));
                    }
                },
                None => {
                    match &var.field {
                        Some(target) => {
                            match self.target_contrib(target, self_doc, fuel, spec_fuel) {
                                Ok(Some(c)) => {
                                    contribs.push(c);
                                    proof {
                                        assert(contribs@.drop_last() =~= pre_contribs);
                                        lemma_cat_models(contribs@);
                                        lemma_cat_models(pre_contribs);
                                        assert(cat_models(contribs@) =~= cat_models(
                                            pre_contribs,
                                        ).push(c.model()));
                                        assert(cat_models(contribs@).skip(
                                            pre_contribs.len() as int,
                                        ) =~= seq![c.model()]);
                                        assert(spec_variant_contrib(
                                            self.model(),
                                            vars[i as int],
                                            self_doc,
                                            spec_fuel@,
                                        ) == Ok::<_, SpecDeclarationError>(
                                            cat_models(contribs@).skip(pre_contribs.len() as int),
                                        ));
                                    }
                                },
                                Ok(None) => {
                                    proof {
                                        assert(cat_models(contribs@).skip(
                                            pre_contribs.len() as int,
                                        ) =~= Seq::<SpecCatalogue>::empty());
                                        assert(spec_variant_contrib(
                                            self.model(),
                                            vars[i as int],
                                            self_doc,
                                            spec_fuel@,
                                        ) == Ok::<_, SpecDeclarationError>(
                                            cat_models(contribs@).skip(pre_contribs.len() as int),
                                        ));
                                    }
                                },
                                Err(err) => {
                                    proof {
                                        assert(spec_variant_contrib(
                                            self.model(),
                                            vars[i as int],
                                            self_doc,
                                            spec_fuel@,
                                        ) == Err::<Seq<SpecCatalogue>, _>(err.model()));
                                        assert(spec_variant_contribs(
                                            self.model(),
                                            vars.skip(i as int),
                                            self_doc,
                                            spec_fuel@,
                                        ) == Err::<Seq<SpecCatalogue>, _>(err.model()));
                                        assert(spec_variant_contribs(
                                            self.model(),
                                            vars,
                                            self_doc,
                                            spec_fuel@,
                                        ) == Err::<Seq<SpecCatalogue>, _>(err.model()));
                                        assert(spec_responses(self.model(), d as int, spec_fuel@)
                                            == Err::<SpecCatalogue, _>(err.model()));
                                    }
                                    return Err(err);
                                },
                            }
                        },
                        None => {
                            let err = DeclarationError::Unresolvable(var.name.clone());
                            proof {
                                assert(spec_variant_contrib(
                                    self.model(),
                                    vars[i as int],
                                    self_doc,
                                    spec_fuel@,
                                ) == Err::<Seq<SpecCatalogue>, _>(err.model()));
                                assert(spec_variant_contribs(
                                    self.model(),
                                    vars.skip(i as int),
                                    self_doc,
                                    spec_fuel@,
                                ) == Err::<Seq<SpecCatalogue>, _>(err.model()));
                                assert(spec_variant_contribs(self.model(), vars, self_doc, spec_fuel@)
                                    == Err::<Seq<SpecCatalogue>, _>(err.model()));
                                assert(spec_responses(self.model(), d as int, spec_fuel@) == Err::<
                                    SpecCatalogue,
                                    _,
                                >(err.model()));
                            }
                            return Err(err);
                        },
                    }
                },
            }
            proof {
                lemma_cat_models(contribs@);
                lemma_cat_models(pre_contribs);
                let hs = cat_models(contribs@).skip(pre_contribs.len() as int);
                let suffix_next = spec_variant_contribs(
                    self.model(),
                    vars.skip(i as int + 1),
                    self_doc,
                    spec_fuel@,
                );
                assert(spec_variant_contribs(self.model(), vars.skip(i as int), self_doc, spec_fuel@)
                    == (match suffix_next {
                    Ok(rest) => Ok::<_, SpecDeclarationError>(hs + rest),
                    Err(er) => Err(er),
                }));
                match suffix_next {
                    Ok(rest) => {
                        assert(cat_models(pre_contribs).skip(bs.len() as int) + (hs + rest)
                            =~= cat_models(contribs@).skip(bs.len() as int) + rest);
                        assert(cat_models(contribs@).take(bs.len() as int) =~= cat_models(
                            pre_contribs,
                        ).take(bs.len() as int));
                    },
                    Err(_) => {},
                }
            }
            i = i + 1;
        }
        proof {
            assert(vars.skip(vars.len() as int) =~= Seq::<SpecVariant>::empty());
            assert(spec_variant_contribs(self.model(), vars.skip(vars.len() as int), self_doc, spec_fuel@)
                == Ok::<_, SpecDeclarationError>(Seq::<SpecCatalogue>::empty()));
            lemma_cat_models(contribs@);
            assert(cat_models(contribs@).skip(bs.len() as int) + Seq::<SpecCatalogue>::empty()
                =~= cat_models(contribs@).skip(bs.len() as int));
            assert(cat_models(contribs@).take(bs.len() as int) + cat_models(contribs@).skip(
                bs.len() as int,
            ) =~= cat_models(contribs@));
            assert(bs + spec_variant_contribs(self.model(), vars, self_doc, spec_fuel@)->Ok_0
                =~= cat_models(contribs@));
        }
        if contribs.len() == 0 {
            let c = ResponseCatalogue::new();
            proof {
                assert(spec_responses(self.model(), d as int, spec_fuel@) == Ok::<
                    _,
                    SpecDeclarationError,
                >(c.model()));
                assert(spec_canonical(c.model()));
            }
            Ok(c)
        } else if contribs.len() == 1 {
            match contribs.pop() {
                Some(c) => {
                    proof {
                        lemma_cat_models(contribs@);
                        assert((bs + spec_variant_contribs(
                            self.model(),
                            vars,
                            self_doc,
                            spec_fuel@,
                        )->Ok_0)[0] == c.model());
                    }
                    Ok(c)
                },
                None => unreached(),
            }
        } else {
            match merge_responses(&contribs) {
                Ok(m) => {
                    Ok(m)
                },
                Err(_) => {
                    proof {
                        lemma_cat_models(contribs@);
                        assert forall|a: int, k: Seq<char>|
                            0 <= a < cat_models(contribs@).len() && #[trigger] cat_models(
                                contribs@,
                            )[a].contains_key(k) implies spec_parse_status(k) is Some by {
                            assert(spec_canonical(contribs@[a].model()));
                            assert(contribs@[a].model().contains_key(k));
                        }
                        assert(all_statuses_valid(cat_models(contribs@)));
                        assert(false);
                    }
                    unreached()
                },
            }
        }
    }
}

} // verus!
