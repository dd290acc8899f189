use vstd::prelude::*;
use vstd::multiset::Multiset;

use crate::schema::{
    CatalogueEntry, ContentEntry, ResponseCatalogue, ResponseDescriptor, Schema, SpecCatalogue,
    SpecDescriptor, SpecSchema, lemma_content_map_at, lemma_content_map_domain, lemma_entry_map_at,
    lemma_entry_map_domain,
};
use crate::status::{
    canonical_reason, parse_status, reason_of, spec_code_of, spec_parse_status, spec_valid_status,
    view_opt_text,
};

verus! {

broadcast use
    vstd::seq::group_seq_axioms,
    vstd::std_specs::vec::group_vec_axioms,
    vstd::multiset::group_multiset_axioms,
    vstd::set::group_set_axioms,
    vstd::map::group_map_axioms,
    vstd::seq_lib::group_to_multiset_ensures;


/// Merging failed because a catalogue key is not a valid status-code text.
#[derive(Debug, Clone, PartialEq, Eq)]
pub struct StatusParseError {
    pub status: String,
}

/// The set of status keys contributed by a sequence of catalogues.
pub open spec fn union_keys(cats: Seq<SpecCatalogue>) -> Set<Seq<char>>
    decreases cats.len(),
{
    if cats.len() == 0 {
        Set::empty()
    } else {
        cats.first().dom() + union_keys(cats.drop_first())
    }
}

/// The descriptors contributed for a status key, in catalogue order.
pub open spec fn descs_for(cats: Seq<SpecCatalogue>, k: Seq<char>) -> Seq<SpecDescriptor>
    decreases cats.len(),
{
    if cats.len() == 0 {
        Seq::empty()
    } else if cats.first().contains_key(k) {
        seq![cats.first()[k]] + descs_for(cats.drop_first(), k)
    } else {
        descs_for(cats.drop_first(), k)
    }
}

/// The set of content types contributed by a sequence of descriptors.
pub open spec fn content_keys(descs: Seq<SpecDescriptor>) -> Set<Seq<char>>
    decreases descs.len(),
{
    if descs.len() == 0 {
        Set::empty()
    } else {
        descs.first().content.dom() + content_keys(descs.drop_first())
    }
}

/// The schemas contributed for a content type, in descriptor order.
pub open spec fn schemas_for(descs: Seq<SpecDescriptor>, ct: Seq<char>) -> Seq<SpecSchema>
    decreases descs.len(),
{
    if descs.len() == 0 {
        Seq::empty()
    } else if descs.first().content.contains_key(ct) {
        seq![descs.first().content[ct]] + schemas_for(descs.drop_first(), ct)
    } else {
        schemas_for(descs.drop_first(), ct)
    }
}

/// The alternatives a schema contributes to a one-of composition: a one-of
/// contributes its direct children (one level of flattening); any other
/// schema contributes itself.
pub open spec fn spec_alternatives(s: SpecSchema) -> Multiset<SpecSchema> {
    match s {
        SpecSchema::OneOf(alts) => alts,
        SpecSchema::Ref(name) => Multiset::singleton(SpecSchema::Ref(name)),
    }
}

/// The alternatives contributed by a group of schemas, flattened one level.
pub open spec fn group_alternatives(schemas: Seq<SpecSchema>) -> Multiset<SpecSchema>
    decreases schemas.len(),
{
    if schemas.len() == 0 {
        Multiset::empty()
    } else {
        spec_alternatives(schemas.first()).add(group_alternatives(schemas.drop_first()))
    }
}

/// The composition of a group of schemas sharing one status and content
/// type: a single schema is kept as it is; two or more are flattened one
/// level each and composed into a one-of.
pub open spec fn spec_merge_content(schemas: Seq<SpecSchema>) -> SpecSchema {
    if schemas.len() == 1 {
        schemas[0]
    } else {
        SpecSchema::OneOf(group_alternatives(schemas))
    }
}

/// The merged descriptor for one status code: the description is recomputed
/// from the code's canonical reason, never inherited from the inputs, and
/// the content unions the contributed content types, composing colliding
/// schemas.
pub open spec fn spec_merge_descriptor(code: u16, descs: Seq<SpecDescriptor>) -> SpecDescriptor {
    SpecDescriptor {
        description: reason_of(code as int),
        content: Map::new(
            |ct: Seq<char>| content_keys(descs).contains(ct),
            |ct: Seq<char>| spec_merge_content(schemas_for(descs, ct)),
        ),
    }
}

/// Whether every status key of every catalogue is a valid status-code text.
pub open spec fn all_statuses_valid(cats: Seq<SpecCatalogue>) -> bool {
    forall|i: int, k: Seq<char>|
        0 <= i < cats.len() && #[trigger] cats[i].contains_key(k) ==> spec_parse_status(k) is Some
}

/// The merge of a sequence of catalogues: its keys are exactly the union of
/// the input key sets, and each status maps to the merged descriptor of the
/// descriptors contributed for it.
pub open spec fn spec_merge(cats: Seq<SpecCatalogue>) -> SpecCatalogue {
    Map::new(
        |k: Seq<char>| union_keys(cats).contains(k),
        |k: Seq<char>| spec_merge_descriptor(spec_code_of(k), descs_for(cats, k)),
    )
}

/// Whether a catalogue is canonical: every key is a valid status-code text
/// and every description is the canonical reason of its status code.
pub open spec fn spec_canonical(c: SpecCatalogue) -> bool {
    forall|k: Seq<char>| #[trigger]
        c.contains_key(k) ==> spec_parse_status(k) is Some && c[k].description == reason_of(
            spec_code_of(k) as int,
        )
}

/// A key is in the union of a catalogue sequence's key sets exactly when
/// some catalogue contains it.
pub proof fn lemma_union_keys(cats: Seq<SpecCatalogue>)
    ensures
        forall|k: Seq<char>| #[trigger]
            union_keys(cats).contains(k) <==> exists|i: int|
                0 <= i < cats.len() && #[trigger] cats[i].contains_key(k),
    decreases cats.len(),
{
    if cats.len() > 0 {
        lemma_union_keys(cats.drop_first());
        assert forall|k: Seq<char>| #[trigger]
            union_keys(cats).contains(k) implies exists|i: int|
            0 <= i < cats.len() && #[trigger] cats[i].contains_key(k) by {
            if cats.first().contains_key(k) {
                assert(cats[0].contains_key(k));
            } else {
                assert(union_keys(cats.drop_first()).contains(k));
                let i = choose|i: int|
                    0 <= i < cats.drop_first().len() && #[trigger] cats.drop_first()[i].contains_key(
                        k,
                    );
                assert(cats[i + 1].contains_key(k));
            }
        }
        assert forall|k: Seq<char>|
            (exists|i: int|
                0 <= i < cats.len() && #[trigger] cats[i].contains_key(
                    k,
                )) implies #[trigger] union_keys(cats).contains(k) by {
            let i = choose|i: int| 0 <= i < cats.len() && #[trigger] cats[i].contains_key(k);
            if i > 0 {
                assert(cats.drop_first()[i - 1].contains_key(k));
                assert(union_keys(cats.drop_first()).contains(k));
            }
        }
    }
}

/// `union_keys` distributes over concatenation.
pub proof fn lemma_union_keys_concat(a: Seq<SpecCatalogue>, b: Seq<SpecCatalogue>)
    ensures
        union_keys(a + b) =~= union_keys(a) + union_keys(b),
    decreases a.len(),
{
    if a.len() == 0 {
        assert(a + b =~= b);
    } else {
        assert((a + b).drop_first() =~= a.drop_first() + b);
        lemma_union_keys_concat(a.drop_first(), b);
    }
}

/// `descs_for` distributes over concatenation.
pub proof fn lemma_descs_for_concat(a: Seq<SpecCatalogue>, b: Seq<SpecCatalogue>, k: Seq<char>)
    ensures
        descs_for(a + b, k) =~= descs_for(a, k) + descs_for(b, k),
    decreases a.len(),
{
    if a.len() == 0 {
        assert(a + b =~= b);
    } else {
        assert((a + b).drop_first() =~= a.drop_first() + b);
        lemma_descs_for_concat(a.drop_first(), b, k);
    }
}

/// `content_keys` distributes over concatenation.
pub proof fn lemma_content_keys_concat(a: Seq<SpecDescriptor>, b: Seq<SpecDescriptor>)
    ensures
        content_keys(a + b) =~= content_keys(a) + content_keys(b),
    decreases a.len(),
{
    if a.len() == 0 {
        assert(a + b =~= b);
    } else {
        assert((a + b).drop_first() =~= a.drop_first() + b);
        lemma_content_keys_concat(a.drop_first(), b);
    }
}

/// `schemas_for` distributes over concatenation.
pub proof fn lemma_schemas_for_concat(a: Seq<SpecDescriptor>, b: Seq<SpecDescriptor>, ct: Seq<char>)
    ensures
        schemas_for(a + b, ct) =~= schemas_for(a, ct) + schemas_for(b, ct),
    decreases a.len(),
{
    if a.len() == 0 {
        assert(a + b =~= b);
    } else {
        assert((a + b).drop_first() =~= a.drop_first() + b);
        lemma_schemas_for_concat(a.drop_first(), b, ct);
    }
}

/// `group_alternatives` distributes over concatenation.
pub proof fn lemma_group_alternatives_concat(a: Seq<SpecSchema>, b: Seq<SpecSchema>)
    ensures
        group_alternatives(a + b) =~= group_alternatives(a).add(group_alternatives(b)),
    decreases a.len(),
{
    if a.len() == 0 {
        assert(a + b =~= b);
    } else {
        assert((a + b).drop_first() =~= a.drop_first() + b);
        lemma_group_alternatives_concat(a.drop_first(), b);
    }
}

/// A status key has contributed descriptors exactly when some catalogue
/// contains it.
pub proof fn lemma_descs_for_nonempty(cats: Seq<SpecCatalogue>, k: Seq<char>)
    ensures
        descs_for(cats, k).len() > 0 <==> union_keys(cats).contains(k),
    decreases cats.len(),
{
    if cats.len() > 0 {
        lemma_descs_for_nonempty(cats.drop_first(), k);
    }
}

/// A content type has contributed schemas exactly when some descriptor
/// serves it.
pub proof fn lemma_schemas_for_nonempty(descs: Seq<SpecDescriptor>, ct: Seq<char>)
    ensures
        schemas_for(descs, ct).len() > 0 <==> content_keys(descs).contains(ct),
    decreases descs.len(),
{
    if descs.len() > 0 {
        lemma_schemas_for_nonempty(descs.drop_first(), ct);
    }
}

/// Unfolding of `descs_for` on a single catalogue.
pub proof fn lemma_descs_for_single(c: SpecCatalogue, k: Seq<char>)
    ensures
        descs_for(seq![c], k) =~= if c.contains_key(k) {
            seq![c[k]]
        } else {
            Seq::<SpecDescriptor>::empty()
        },
{
    assert(seq![c].drop_first() =~= Seq::<SpecCatalogue>::empty());
    assert(descs_for(Seq::<SpecCatalogue>::empty(), k) =~= Seq::<SpecDescriptor>::empty());
    assert(seq![c].first() == c);
}

/// Unfolding of `schemas_for` on a single descriptor.
pub proof fn lemma_schemas_for_single(d: SpecDescriptor, ct: Seq<char>)
    ensures
        schemas_for(seq![d], ct) =~= if d.content.contains_key(ct) {
            seq![d.content[ct]]
        } else {
            Seq::<SpecSchema>::empty()
        },
{
    assert(seq![d].drop_first() =~= Seq::<SpecDescriptor>::empty());
    assert(schemas_for(Seq::<SpecDescriptor>::empty(), ct) =~= Seq::<SpecSchema>::empty());
    assert(seq![d].first() == d);
}

/// Unfolding of `union_keys` on a single catalogue.
pub proof fn lemma_union_keys_single(c: SpecCatalogue)
    ensures
        union_keys(seq![c]) =~= c.dom(),
{
    assert(seq![c].drop_first() =~= Seq::<SpecCatalogue>::empty());
    assert(union_keys(Seq::<SpecCatalogue>::empty()) =~= Set::<Seq<char>>::empty());
    assert(seq![c].first() == c);
}

/// Unfolding of `content_keys` on a single descriptor.
pub proof fn lemma_content_keys_single(d: SpecDescriptor)
    ensures
        content_keys(seq![d]) =~= d.content.dom(),
{
    assert(seq![d].drop_first() =~= Seq::<SpecDescriptor>::empty());
    assert(content_keys(Seq::<SpecDescriptor>::empty()) =~= Set::<Seq<char>>::empty());
    assert(seq![d].first() == d);
}

/// Unfolding of `group_alternatives` on a single schema.
pub proof fn lemma_group_alternatives_single(s: SpecSchema)
    ensures
        group_alternatives(seq![s]) =~= spec_alternatives(s),
{
    assert(seq![s].drop_first() =~= Seq::<SpecSchema>::empty());
    assert(group_alternatives(Seq::<SpecSchema>::empty()) =~= Multiset::<SpecSchema>::empty());
    assert(seq![s].first() == s);
}

/// The alternatives of a composed group are the alternatives of its
/// members: composing and then flattening one level loses nothing.
pub proof fn lemma_alternatives_of_merge_content(schemas: Seq<SpecSchema>)
    requires
        schemas.len() >= 1,
    ensures
        spec_alternatives(spec_merge_content(schemas)) =~= group_alternatives(schemas),
{
    if schemas.len() == 1 {
        assert(schemas.drop_first().len() == 0);
        assert(group_alternatives(schemas.drop_first()) =~= Multiset::empty());
        assert(group_alternatives(schemas) =~= spec_alternatives(schemas.first()).add(
            Multiset::empty(),
        ));
        assert(group_alternatives(schemas) =~= spec_alternatives(schemas[0]));
    }
}

/// Composing two schemas does not depend on their order.
pub proof fn lemma_merge_content_comm(a: SpecSchema, b: SpecSchema)
    ensures
        spec_merge_content(seq![a, b]) == spec_merge_content(seq![b, a]),
{
    assert(seq![a, b].drop_first() =~= seq![b]);
    assert(seq![b, a].drop_first() =~= seq![a]);
    lemma_group_alternatives_single(a);
    lemma_group_alternatives_single(b);
    assert(group_alternatives(seq![a, b]) =~= group_alternatives(seq![b, a]));
    assert(spec_merge_content(seq![a, b]) =~= spec_merge_content(seq![b, a]));
}

/// Merging two descriptors under one status does not depend on their order.
pub proof fn lemma_merge_descriptor_comm(code: u16, x: SpecDescriptor, y: SpecDescriptor)
    ensures
        spec_merge_descriptor(code, seq![x, y]) == spec_merge_descriptor(code, seq![y, x]),
{
    let xy = seq![x, y];
    let yx = seq![y, x];
    assert(xy.drop_first() =~= seq![y]);
    assert(yx.drop_first() =~= seq![x]);
    lemma_content_keys_single(x);
    lemma_content_keys_single(y);
    assert(content_keys(xy) =~= content_keys(yx));
    assert forall|ct: Seq<char>| #[trigger] content_keys(xy).contains(ct) implies
        spec_merge_content(schemas_for(xy, ct)) == spec_merge_content(schemas_for(yx, ct)) by {
        lemma_schemas_for_single(x, ct);
        lemma_schemas_for_single(y, ct);
        if x.content.contains_key(ct) && y.content.contains_key(ct) {
            assert(schemas_for(xy, ct) =~= seq![x.content[ct], y.content[ct]]);
            assert(schemas_for(yx, ct) =~= seq![y.content[ct], x.content[ct]]);
            lemma_merge_content_comm(x.content[ct], y.content[ct]);
        } else if x.content.contains_key(ct) {
            assert(schemas_for(xy, ct) =~= seq![x.content[ct]]);
            assert(schemas_for(yx, ct) =~= seq![x.content[ct]]);
        } else {
            assert(schemas_for(xy, ct) =~= seq![y.content[ct]]);
            assert(schemas_for(yx, ct) =~= seq![y.content[ct]]);
        }
    }
    assert(spec_merge_descriptor(code, xy).content =~= spec_merge_descriptor(code, yx).content);
    assert(spec_merge_descriptor(code, xy) =~= spec_merge_descriptor(code, yx));
}

/// Merging two catalogues does not depend on their order.
pub proof fn lemma_merge_commutative(c1: SpecCatalogue, c2: SpecCatalogue)
    ensures
        spec_merge(seq![c1, c2]) == spec_merge(seq![c2, c1]),
{
    let cats12 = seq![c1, c2];
    let cats21 = seq![c2, c1];
    assert(cats12.drop_first() =~= seq![c2]);
    assert(cats21.drop_first() =~= seq![c1]);
    lemma_union_keys_single(c1);
    lemma_union_keys_single(c2);
    assert(union_keys(cats12) =~= union_keys(cats21));
    assert forall|k: Seq<char>| #[trigger] union_keys(cats12).contains(k) implies
        spec_merge_descriptor(spec_code_of(k), descs_for(cats12, k)) == spec_merge_descriptor(
        spec_code_of(k),
        descs_for(cats21, k),
    ) by {
        lemma_descs_for_single(c1, k);
        lemma_descs_for_single(c2, k);
        if c1.contains_key(k) && c2.contains_key(k) {
            assert(descs_for(cats12, k) =~= seq![c1[k], c2[k]]);
            assert(descs_for(cats21, k) =~= seq![c2[k], c1[k]]);
            lemma_merge_descriptor_comm(spec_code_of(k), c1[k], c2[k]);
        } else if c1.contains_key(k) {
            assert(descs_for(cats12, k) =~= seq![c1[k]]);
            assert(descs_for(cats21, k) =~= seq![c1[k]]);
        } else {
            assert(descs_for(cats12, k) =~= seq![c2[k]]);
            assert(descs_for(cats21, k) =~= seq![c2[k]]);
        }
    }
    assert(spec_merge(cats12) =~= spec_merge(cats21));
}

/// The keys of a merge are exactly the union of the input key sets: no
/// status is dropped, none is invented.
pub proof fn lemma_merge_key_totality(cats: Seq<SpecCatalogue>)
    ensures
        spec_merge(cats).dom() =~= union_keys(cats),
        forall|k: Seq<char>| #[trigger]
            spec_merge(cats).contains_key(k) <==> exists|i: int|
                0 <= i < cats.len() && #[trigger] cats[i].contains_key(k),
{
    lemma_union_keys(cats);
}

/// Merging no catalogues yields the empty catalogue.
pub proof fn lemma_merge_empty()
    ensures
        spec_merge(Seq::<SpecCatalogue>::empty()) == Map::<Seq<char>, SpecDescriptor>::empty(),
{
    assert(spec_merge(Seq::<SpecCatalogue>::empty()) =~= Map::<Seq<char>, SpecDescriptor>::empty());
}

/// Merging a single canonical catalogue gives it back unchanged. A
/// catalogue is canonical when its keys are valid status-code texts and its
/// descriptions are the canonical reasons of its statuses, as holds of
/// every catalogue this library derives; merging recomputes exactly those.
pub proof fn lemma_merge_single(c: SpecCatalogue)
    requires
        spec_canonical(c),
    ensures
        spec_merge(seq![c]) == c,
{
    lemma_union_keys_single(c);
    assert forall|k: Seq<char>| #[trigger] c.contains_key(k) implies spec_merge_descriptor(
        spec_code_of(k),
        descs_for(seq![c], k),
    ) =~~= c[k] by {
        lemma_descs_for_single(c, k);
        let d = c[k];
        assert(descs_for(seq![c], k) =~= seq![d]);
        lemma_content_keys_single(d);
        let merged = spec_merge_descriptor(spec_code_of(k), seq![d]);
        assert(merged.description == d.description);
        assert forall|ct: Seq<char>| #[trigger] d.content.contains_key(ct) implies merged.content[ct]
            == d.content[ct] by {
            lemma_schemas_for_single(d, ct);
            assert(schemas_for(seq![d], ct) =~= seq![d.content[ct]]);
        }
        assert(merged.content =~= d.content);
    }
    assert(spec_merge(seq![c]) =~~= c);
}

/// Merging a merged catalogue among others is the same as merging the
/// original catalogues in its place: merging is flattening-invariant.
pub proof fn lemma_merge_flatten(
    pre: Seq<SpecCatalogue>,
    cs: Seq<SpecCatalogue>,
    post: Seq<SpecCatalogue>,
)
    ensures
        spec_merge(pre + seq![spec_merge(cs)] + post) == spec_merge(pre + cs + post),
{
    let m = spec_merge(cs);
    let lhs_cats = pre + seq![m] + post;
    let rhs_cats = pre + cs + post;
    lemma_union_keys_concat(pre + seq![m], post);
    lemma_union_keys_concat(pre, seq![m]);
    lemma_union_keys_concat(pre + cs, post);
    lemma_union_keys_concat(pre, cs);
    lemma_union_keys_single(m);
    assert(m.dom() =~= union_keys(cs));
    assert(union_keys(lhs_cats) =~= union_keys(rhs_cats));
    assert forall|k: Seq<char>| #[trigger] union_keys(lhs_cats).contains(k) implies
        spec_merge_descriptor(spec_code_of(k), descs_for(lhs_cats, k)) =~~= spec_merge_descriptor(
        spec_code_of(k),
        descs_for(rhs_cats, k),
    ) by {
        lemma_merge_flatten_descriptor(pre, cs, post, k);
    }
    assert(spec_merge(lhs_cats) =~~= spec_merge(rhs_cats));
}

/// The merged descriptor for one status is unchanged when a merged
/// catalogue stands in for the catalogues it was merged from.
proof fn lemma_merge_flatten_descriptor(
    pre: Seq<SpecCatalogue>,
    cs: Seq<SpecCatalogue>,
    post: Seq<SpecCatalogue>,
    k: Seq<char>,
)
    ensures
        spec_merge_descriptor(spec_code_of(k), descs_for(pre + seq![spec_merge(cs)] + post, k))
            =~~= spec_merge_descriptor(spec_code_of(k), descs_for(pre + cs + post, k)),
{
    let m = spec_merge(cs);
    let dpre = descs_for(pre, k);
    let dcs = descs_for(cs, k);
    let dpost = descs_for(post, k);
    let dm = descs_for(seq![m], k);
    lemma_descs_for_concat(pre + seq![m], post, k);
    lemma_descs_for_concat(pre, seq![m], k);
    lemma_descs_for_concat(pre + cs, post, k);
    lemma_descs_for_concat(pre, cs, k);
    lemma_descs_for_single(m, k);
    lemma_descs_for_nonempty(cs, k);
    lemma_union_keys_single(m);
    assert(m.dom() =~= union_keys(cs));
    let dl = descs_for(pre + seq![m] + post, k);
    let dr = descs_for(pre + cs + post, k);
    assert(dl =~= dpre + dm + dpost);
    assert(dr =~= dpre + dcs + dpost);
    if !m.contains_key(k) {
        assert(dcs.len() == 0);
        assert(dl =~= dr);
    } else {
        let md = m[k];
        assert(md == spec_merge_descriptor(spec_code_of(k), dcs));
        assert(dm =~= seq![md]);
        lemma_content_keys_concat(dpre + dm, dpost);
        lemma_content_keys_concat(dpre, dm);
        lemma_content_keys_concat(dpre + dcs, dpost);
        lemma_content_keys_concat(dpre, dcs);
        lemma_content_keys_single(md);
        assert(md.content.dom() =~= content_keys(dcs));
        assert(content_keys(dl) =~= content_keys(dr));
        assert forall|ct: Seq<char>| #[trigger] content_keys(dl).contains(ct) implies
            spec_merge_content(schemas_for(dl, ct)) =~~= spec_merge_content(
            schemas_for(dr, ct),
        ) by {
            lemma_merge_flatten_content(dpre, dcs, dpost, md, ct);
        }
        let merged_l = spec_merge_descriptor(spec_code_of(k), dl);
        let merged_r = spec_merge_descriptor(spec_code_of(k), dr);
        assert(merged_l.content =~~= merged_r.content);
        assert(merged_l =~~= merged_r);
    }
}

/// The composed schema for one content type is unchanged when a merged
/// descriptor stands in for the descriptors it was merged from.
proof fn lemma_merge_flatten_content(
    dpre: Seq<SpecDescriptor>,
    dcs: Seq<SpecDescriptor>,
    dpost: Seq<SpecDescriptor>,
    md: SpecDescriptor,
    ct: Seq<char>,
)
    requires
        md.content.dom() =~= content_keys(dcs),
        forall|c: Seq<char>| #[trigger]
            md.content.contains_key(c) ==> md.content[c] == spec_merge_content(
                schemas_for(dcs, c),
            ),
    ensures
        spec_merge_content(schemas_for(dpre + seq![md] + dpost, ct)) =~~= spec_merge_content(
            schemas_for(dpre + dcs + dpost, ct),
        ),
{
    let sspre = schemas_for(dpre, ct);
    let sscs = schemas_for(dcs, ct);
    let sspost = schemas_for(dpost, ct);
    let ssm = schemas_for(seq![md], ct);
    lemma_schemas_for_concat(dpre + seq![md], dpost, ct);
    lemma_schemas_for_concat(dpre, seq![md], ct);
    lemma_schemas_for_concat(dpre + dcs, dpost, ct);
    lemma_schemas_for_concat(dpre, dcs, ct);
    lemma_schemas_for_single(md, ct);
    lemma_schemas_for_nonempty(dcs, ct);
    let ssl = schemas_for(dpre + seq![md] + dpost, ct);
    let ssr = schemas_for(dpre + dcs + dpost, ct);
    assert(ssl =~= sspre + ssm + sspost);
    assert(ssr =~= sspre + sscs + sspost);
    if sscs.len() == 0 {
        assert(!md.content.contains_key(ct));
        assert(ssl =~= ssr);
    } else {
        assert(md.content.contains_key(ct));
        let mc = spec_merge_content(sscs);
        assert(ssm =~= seq![mc]);
        if sspre.len() == 0 && sspost.len() == 0 {
            assert(ssl =~= seq![mc]);
            assert(ssr =~= sscs);
            if sscs.len() == 1 {
                assert(spec_merge_content(ssl) == sscs[0]);
            } else {
                assert(spec_merge_content(ssl) == mc);
            }
        } else {
            assert(ssl.len() >= 2);
            assert(ssr.len() >= 2);
            lemma_group_alternatives_concat(sspre + ssm, sspost);
            lemma_group_alternatives_concat(sspre, ssm);
            lemma_group_alternatives_concat(sspre + sscs, sspost);
            lemma_group_alternatives_concat(sspre, sscs);
            lemma_group_alternatives_single(mc);
            lemma_alternatives_of_merge_content(sscs);
            assert(group_alternatives(ssl) =~= group_alternatives(ssr));
            assert(spec_merge_content(ssl) =~~= spec_merge_content(ssr));
        }
    }
}

/// Merging is associative: merging a merged pair with a third catalogue
/// equals merging the first with the merged pair of the last two.
pub proof fn lemma_merge_associative(c1: SpecCatalogue, c2: SpecCatalogue, c3: SpecCatalogue)
    ensures
        spec_merge(seq![spec_merge(seq![c1, c2]), c3]) == spec_merge(
            seq![c1, spec_merge(seq![c2, c3])],
        ),
{
    lemma_merge_flatten(Seq::empty(), seq![c1, c2], seq![c3]);
    assert(Seq::<SpecCatalogue>::empty() + seq![spec_merge(seq![c1, c2])] + seq![c3] =~= seq![
        spec_merge(seq![c1, c2]),
        c3,
    ]);
    assert(Seq::<SpecCatalogue>::empty() + seq![c1, c2] + seq![c3] =~= seq![c1, c2, c3]);
    lemma_merge_flatten(seq![c1], seq![c2, c3], Seq::empty());
    assert(seq![c1] + seq![spec_merge(seq![c2, c3])] + Seq::<SpecCatalogue>::empty() =~= seq![
        c1,
        spec_merge(seq![c2, c3]),
    ]);
    assert(seq![c1] + seq![c2, c3] + Seq::<SpecCatalogue>::empty() =~= seq![c1, c2, c3]);
}

/// A content type is in the union of a descriptor sequence's content keys
/// exactly when some descriptor serves it.
pub proof fn lemma_content_keys_mem(descs: Seq<SpecDescriptor>)
    ensures
        forall|ct: Seq<char>| #[trigger]
            content_keys(descs).contains(ct) <==> exists|i: int|
                0 <= i < descs.len() && #[trigger] descs[i].content.contains_key(ct),
    decreases descs.len(),
{
    if descs.len() > 0 {
        lemma_content_keys_mem(descs.drop_first());
        assert forall|ct: Seq<char>| #[trigger]
            content_keys(descs).contains(ct) implies exists|i: int|
            0 <= i < descs.len() && #[trigger] descs[i].content.contains_key(ct) by {
            if descs.first().content.contains_key(ct) {
                assert(descs[0].content.contains_key(ct));
            } else {
                assert(content_keys(descs.drop_first()).contains(ct));
                let i = choose|i: int|
                    0 <= i < descs.drop_first().len()
                        && #[trigger] descs.drop_first()[i].content.contains_key(ct);
                assert(descs[i + 1].content.contains_key(ct));
            }
        }
        assert forall|ct: Seq<char>|
            (exists|i: int|
                0 <= i < descs.len() && #[trigger] descs[i].content.contains_key(
                    ct,
                )) implies #[trigger] content_keys(descs).contains(ct) by {
            let i = choose|i: int|
                0 <= i < descs.len() && #[trigger] descs[i].content.contains_key(ct);
            if i > 0 {
                assert(descs.drop_first()[i - 1].content.contains_key(ct));
                assert(content_keys(descs.drop_first()).contains(ct));
            }
        }
    }
}

/// Stepping a prefix of catalogues by one extends its key union by the next
/// catalogue's keys.
pub proof fn lemma_union_keys_take_step(cats: Seq<SpecCatalogue>, i: int)
    requires
        0 <= i < cats.len(),
    ensures
        union_keys(cats.take(i + 1)) =~= union_keys(cats.take(i)) + cats[i].dom(),
{
    assert(cats.take(i + 1) =~= cats.take(i) + seq![cats[i]]);
    lemma_union_keys_concat(cats.take(i), seq![cats[i]]);
    lemma_union_keys_single(cats[i]);
}

/// Stepping a prefix of catalogues by one extends the contributed
/// descriptors by the next catalogue's, if it has one.
pub proof fn lemma_descs_for_take_step(cats: Seq<SpecCatalogue>, i: int, k: Seq<char>)
    requires
        0 <= i < cats.len(),
    ensures
        descs_for(cats.take(i + 1), k) =~= descs_for(cats.take(i), k) + (if cats[i].contains_key(
            k,
        ) {
            seq![cats[i][k]]
        } else {
            Seq::<SpecDescriptor>::empty()
        }),
{
    assert(cats.take(i + 1) =~= cats.take(i) + seq![cats[i]]);
    lemma_descs_for_concat(cats.take(i), seq![cats[i]], k);
    lemma_descs_for_single(cats[i], k);
}

/// Stepping a prefix of descriptors by one extends the contributed schemas
/// by the next descriptor's, if it serves the content type.
pub proof fn lemma_schemas_for_take_step(descs: Seq<SpecDescriptor>, i: int, ct: Seq<char>)
    requires
        0 <= i < descs.len(),
    ensures
        schemas_for(descs.take(i + 1), ct) =~= schemas_for(descs.take(i), ct) + (if descs[i].content.contains_key(
            ct,
        ) {
            seq![descs[i].content[ct]]
        } else {
            Seq::<SpecSchema>::empty()
        }),
{
    assert(descs.take(i + 1) =~= descs.take(i) + seq![descs[i]]);
    lemma_schemas_for_concat(descs.take(i), seq![descs[i]], ct);
    lemma_schemas_for_single(descs[i], ct);
}

/// Appending a schema to a group adds its alternatives.
pub proof fn lemma_group_alternatives_push(schemas: Seq<SpecSchema>, x: SpecSchema)
    ensures
        group_alternatives(schemas.push(x)) =~= group_alternatives(schemas).add(
            spec_alternatives(x),
        ),
{
    assert(schemas.push(x) =~= schemas + seq![x]);
    lemma_group_alternatives_concat(schemas, seq![x]);
    lemma_group_alternatives_single(x);
}

/// Composing a schema with a one-of flattens the one-of's direct children
/// into the composition, one level only: the result is not a nested one-of.
pub proof fn lemma_one_of_flattening(a: SpecSchema, b: SpecSchema, c: SpecSchema)
    requires
        !(a is OneOf),
        !(b is OneOf),
        !(c is OneOf),
    ensures
        spec_merge_content(seq![a, SpecSchema::OneOf(Multiset::singleton(b).insert(c))])
            == SpecSchema::OneOf(Multiset::singleton(a).insert(b).insert(c)),
        spec_merge_content(seq![a, SpecSchema::OneOf(Multiset::singleton(b).insert(c))])
            != SpecSchema::OneOf(
            Multiset::singleton(a).insert(SpecSchema::OneOf(Multiset::singleton(b).insert(c))),
        ),
{
    let bc = Multiset::singleton(b).insert(c);
    let group = seq![a, SpecSchema::OneOf(bc)];
    assert(group.drop_first() =~= seq![SpecSchema::OneOf(bc)]);
    lemma_group_alternatives_single(SpecSchema::OneOf(bc));
    assert(group_alternatives(group) =~= spec_alternatives(a).add(bc));
    assert(spec_alternatives(a).add(bc) =~= Multiset::singleton(a).insert(b).insert(c));
    let flat = Multiset::singleton(a).insert(b).insert(c);
    let nested = Multiset::singleton(a).insert(SpecSchema::OneOf(bc));
    assert(flat.count(SpecSchema::OneOf(bc)) == 0);
    assert(nested.count(SpecSchema::OneOf(bc)) >= 1);
    assert(flat != nested);
}

/// The models of a sequence of catalogues, elementwise.
pub open spec fn cat_models(cats: Seq<ResponseCatalogue>) -> Seq<SpecCatalogue>
    decreases cats.len(),
{
    if cats.len() == 0 {
        Seq::empty()
    } else {
        cat_models(cats.drop_last()).push(cats.last().model())
    }
}

/// `cat_models` maps a sequence of catalogues elementwise.
pub proof fn lemma_cat_models(cats: Seq<ResponseCatalogue>)
    ensures
        cat_models(cats).len() == cats.len(),
        forall|i: int| 0 <= i < cats.len() ==> cat_models(cats)[i] == cats[i].model(),
    decreases cats.len(),
{
    if cats.len() > 0 {
        lemma_cat_models(cats.drop_last());
    }
}

/// The models of a sequence of borrowed descriptors, elementwise.
pub open spec fn desc_ref_models(descs: Seq<&ResponseDescriptor>) -> Seq<SpecDescriptor>
    decreases descs.len(),
{
    if descs.len() == 0 {
        Seq::empty()
    } else {
        desc_ref_models(descs.drop_last()).push(descs.last().model())
    }
}

/// `desc_ref_models` maps a sequence of borrowed descriptors elementwise.
pub proof fn lemma_desc_ref_models(descs: Seq<&ResponseDescriptor>)
    ensures
        desc_ref_models(descs).len() == descs.len(),
        forall|i: int| 0 <= i < descs.len() ==> desc_ref_models(descs)[i] == descs[i].model(),
    decreases descs.len(),
{
    if descs.len() > 0 {
        lemma_desc_ref_models(descs.drop_last());
    }
}

/// The models of a sequence of borrowed schemas, elementwise.
pub open spec fn schema_ref_models(schemas: Seq<&Schema>) -> Seq<SpecSchema>
    decreases schemas.len(),
{
    if schemas.len() == 0 {
        Seq::empty()
    } else {
        schema_ref_models(schemas.drop_last()).push(schemas.last().model())
    }
}

/// `schema_ref_models` maps a sequence of borrowed schemas elementwise.
pub proof fn lemma_schema_ref_models(schemas: Seq<&Schema>)
    ensures
        schema_ref_models(schemas).len() == schemas.len(),
        forall|i: int| 0 <= i < schemas.len() ==> schema_ref_models(schemas)[i]
            == schemas[i].model(),
    decreases schemas.len(),
{
    if schemas.len() > 0 {
        lemma_schema_ref_models(schemas.drop_last());
    }
}

/// The offending status key of some catalogue that is not a valid
/// status-code text, if there is one.
fn check_statuses(catalogues: &Vec<ResponseCatalogue>) -> (r: Option<String>)
    requires
        forall|i: int| 0 <= i < catalogues@.len() ==> (#[trigger] catalogues@[i]).wf(),
    ensures
        match r {
            None => all_statuses_valid(cat_models(catalogues@)),
            Some(s) => spec_parse_status(s@) is None && exists|i: int|
                0 <= i < cat_models(catalogues@).len() && #[trigger] cat_models(
                    catalogues@,
                )[i].contains_key(s@),
        },
{
    proof {
        lemma_cat_models(catalogues@);
    }
    let ghost cs = cat_models(catalogues@);
    let mut i: usize = 0;
    while i < catalogues.len()
        invariant
            i <= catalogues@.len(),
            cs == cat_models(catalogues@),
            forall|a: int| 0 <= a < catalogues@.len() ==> (#[trigger] catalogues@[a]).wf(),
            cs.len() == catalogues@.len(),
            forall|a: int| 0 <= a < catalogues@.len() ==> cs[a] == catalogues@[a].model(),
            forall|a: int, b: int|
                0 <= a < i && 0 <= b < catalogues@[a].entries@.len() ==> spec_parse_status(
                    #[trigger] catalogues@[a].entries@[b].status@,
                ) is Some,
        decreases catalogues@.len() - i,
    {
        let entries = &catalogues[i].entries;
        let mut j: usize = 0;
        while j < entries.len()
            invariant
                i < catalogues@.len(),
                j <= entries@.len(),
                entries == &catalogues@[i as int].entries,
                cs == cat_models(catalogues@),
                forall|a: int| 0 <= a < catalogues@.len() ==> (#[trigger] catalogues@[a]).wf(),
                cs.len() == catalogues@.len(),
                forall|a: int| 0 <= a < catalogues@.len() ==> cs[a] == catalogues@[a].model(),
                forall|b: int|
                    0 <= b < j ==> spec_parse_status(
                        #[trigger] entries@[b].status@,
                    ) is Some,
            decreases entries@.len() - j,
        {
            let status = &entries[j].status;
            match parse_status(status.as_str()) {
                Some(_) => {},
                None => {
                    proof {
                        lemma_entry_map_at(catalogues@[i as int].entries@, j as int);
                        assert(cs[i as int].contains_key(status@));
                    }
                    return Some(status.clone());
                },
            }
            j = j + 1;
        }
        proof {
            assert(forall|b: int|
                0 <= b < catalogues@[i as int].entries@.len() ==> spec_parse_status(
                    #[trigger] catalogues@[i as int].entries@[b].status@,
                ) is Some);
        }
        i = i + 1;
    }
    proof {
        assert forall|a: int, k: Seq<char>|
            0 <= a < cs.len() && #[trigger] cs[a].contains_key(k) implies spec_parse_status(
            k,
        ) is Some by {
            lemma_entry_map_domain(catalogues@[a].entries@);
            let b = choose|b: int|
                0 <= b < catalogues@[a].entries@.len() && catalogues@[a].entries@[b].status@ == k;
            assert(spec_parse_status(catalogues@[a].entries@[b].status@) is Some);
        }
    }
    None
}

/// The descriptors every catalogue contributes for a status, in catalogue
/// order.
fn collect_descs<'a>(catalogues: &'a Vec<ResponseCatalogue>, status: &String) -> (r: Vec<
    &'a ResponseDescriptor,
>)
    requires
        forall|i: int| 0 <= i < catalogues@.len() ==> (#[trigger] catalogues@[i]).wf(),
    ensures
        desc_ref_models(r@) == descs_for(cat_models(catalogues@), status@),
        forall|j: int| 0 <= j < r@.len() ==> (#[trigger] r@[j]).wf(),
{
    proof {
        lemma_cat_models(catalogues@);
    }
    let ghost cs = cat_models(catalogues@);
    let mut out: Vec<&'a ResponseDescriptor> = Vec::new();
    let mut i: usize = 0;
    while i < catalogues.len()
        invariant
            i <= catalogues@.len(),
            cs == cat_models(catalogues@),
            forall|a: int| 0 <= a < catalogues@.len() ==> (#[trigger] catalogues@[a]).wf(),
            cs.len() == catalogues@.len(),
            forall|a: int| 0 <= a < catalogues@.len() ==> cs[a] == catalogues@[a].model(),
            desc_ref_models(out@) =~= descs_for(cs.take(i as int), status@),
            forall|j: int| 0 <= j < out@.len() ==> (#[trigger] out@[j]).wf(),
        decreases catalogues@.len() - i,
    {
        proof {
            lemma_descs_for_take_step(cs, i as int, status@);
        }
        match catalogues[i].get(status) {
            Some(descriptor) => {
                let ghost old_out = out@;
                out.push(descriptor);
                proof {
                    assert(out@.drop_last() =~= old_out);
                    assert(desc_ref_models(out@) == desc_ref_models(old_out).push(
                        descriptor.model(),
                    ));
                    assert(desc_ref_models(out@) =~= descs_for(cs.take(i as int + 1), status@));
                }
            },
            None => {
                proof {
                    assert(desc_ref_models(out@) =~= descs_for(cs.take(i as int + 1), status@));
                }
            },
        }
        i = i + 1;
    }
    proof {
        assert(cs.take(cs.len() as int) =~= cs);
    }
    out
}

/// The schemas every contributed descriptor serves under a content type, in
/// descriptor order.
fn collect_schemas<'a>(descs: &Vec<&'a ResponseDescriptor>, content_type: &String) -> (r: Vec<
    &'a Schema,
>)
    requires
        forall|j: int| 0 <= j < descs@.len() ==> (#[trigger] descs@[j]).wf(),
    ensures
        schema_ref_models(r@) == schemas_for(desc_ref_models(descs@), content_type@),
{
    proof {
        lemma_desc_ref_models(descs@);
    }
    let ghost ds = desc_ref_models(descs@);
    let mut out: Vec<&'a Schema> = Vec::new();
    let mut i: usize = 0;
    while i < descs.len()
        invariant
            i <= descs@.len(),
            ds == desc_ref_models(descs@),
            forall|j: int| 0 <= j < descs@.len() ==> (#[trigger] descs@[j]).wf(),
            ds.len() == descs@.len(),
            forall|j: int| 0 <= j < descs@.len() ==> ds[j] == descs@[j].model(),
            schema_ref_models(out@) =~= schemas_for(ds.take(i as int), content_type@),
        decreases descs@.len() - i,
    {
        proof {
            lemma_schemas_for_take_step(ds, i as int, content_type@);
        }
        match descs[i].get_schema(content_type) {
            Some(schema) => {
                let ghost old_out = out@;
                out.push(schema);
                proof {
                    assert(out@.drop_last() =~= old_out);
                    assert(schema_ref_models(out@) == schema_ref_models(old_out).push(
                        schema.model(),
                    ));
                    assert(schema_ref_models(out@) =~= schemas_for(
                        ds.take(i as int + 1),
                        content_type@,
                    ));
                }
            },
            None => {
                proof {
                    assert(schema_ref_models(out@) =~= schemas_for(
                        ds.take(i as int + 1),
                        content_type@,
                    ));
                }
            },
        }
        i = i + 1;
    }
    proof {
        assert(ds.take(ds.len() as int) =~= ds);
    }
    out
}

/// The composition of the schemas contributed for one status and content
/// type: a single schema is kept; several are flattened one level each and
/// composed into a one-of.
pub fn merge_content(schemas: &Vec<&Schema>) -> (r: Schema)
    requires
        schemas@.len() >= 1,
    ensures
        r.model() == spec_merge_content(schema_ref_models(schemas@)),
{
    proof {
        lemma_schema_ref_models(schemas@);
    }
    let ghost ss = schema_ref_models(schemas@);
    if schemas.len() == 1 {
        let r = schemas[0].duplicate();
        proof {
            assert(ss[0] == schemas@[0].model());
        }
        return r;
    }
    let mut alternatives: Vec<Schema> = Vec::new();
    let mut i: usize = 0;
    while i < schemas.len()
        invariant
            i <= schemas@.len(),
            ss == schema_ref_models(schemas@),
            ss.len() == schemas@.len(),
            forall|j: int| 0 <= j < schemas@.len() ==> ss[j] == schemas@[j].model(),
            Schema::models(alternatives@).to_multiset() =~= group_alternatives(ss.take(i as int)),
        decreases schemas@.len() - i,
    {
        proof {
            assert(ss.take(i as int + 1) =~= ss.take(i as int).push(ss[i as int]));
            lemma_group_alternatives_push(ss.take(i as int), ss[i as int]);
        }
        match schemas[i] {
            Schema::OneOf(alts) => {
                proof {
                    assert(ss[i as int] == SpecSchema::OneOf(
                        Schema::models(alts@).to_multiset(),
                    ));
                }
                let mut j: usize = 0;
                while j < alts.len()
                    invariant
                        i < schemas@.len(),
                        j <= alts@.len(),
                        ss == schema_ref_models(schemas@),
                        ss.len() == schemas@.len(),
                        spec_alternatives(ss[i as int]) == Schema::models(alts@).to_multiset(),
                        Schema::models(alternatives@).to_multiset() =~= group_alternatives(
                            ss.take(i as int),
                        ).add(Schema::models(alts@.take(j as int)).to_multiset()),
                    decreases alts@.len() - j,
                {
                    let dup = alts[j].duplicate();
                    let ghost old_alts = alternatives@;
                    alternatives.push(dup);
                    proof {
                        assert(alternatives@.drop_last() =~= old_alts);
                        assert(Schema::models(alternatives@) == Schema::models(old_alts).push(
                            dup.model(),
                        ));
                        assert(Schema::models(old_alts).push(dup.model()).to_multiset()
                            =~= Schema::models(old_alts).to_multiset().insert(dup.model()));
                        Schema::lemma_models(alts@);
                        assert(alts@.take(j as int + 1) =~= alts@.take(j as int).push(
                            alts@[j as int],
                        ));
                        assert(Schema::models(alts@.take(j as int + 1)) == Schema::models(
                            alts@.take(j as int),
                        ).push(alts@[j as int].model())) by {
                            Schema::lemma_models(alts@.take(j as int + 1));
                            Schema::lemma_models(alts@.take(j as int));
                            assert(Schema::models(alts@.take(j as int + 1)) =~= Schema::models(
                                alts@.take(j as int),
                            ).push(alts@[j as int].model()));
                        }
                        assert(Schema::models(alts@.take(j as int)).push(
                            alts@[j as int].model(),
                        ).to_multiset() =~= Schema::models(alts@.take(j as int)).to_multiset().insert(
                            alts@[j as int].model(),
                        ));
                        assert(Schema::models(alternatives@).to_multiset() =~= group_alternatives(
                            ss.take(i as int),
                        ).add(Schema::models(alts@.take(j as int + 1)).to_multiset()));
                    }
                    j = j + 1;
                }
                proof {
                    assert(alts@.take(alts@.len() as int) =~= alts@);
                    assert(Schema::models(alternatives@).to_multiset() =~= group_alternatives(
                        ss.take(i as int),
                    ).add(spec_alternatives(ss[i as int])));
                }
            },
            Schema::Ref(_) => {
                let dup = schemas[i].duplicate();
                let ghost old_alts = alternatives@;
                alternatives.push(dup);
                proof {
                    assert(alternatives@.drop_last() =~= old_alts);
                    assert(Schema::models(alternatives@) == Schema::models(old_alts).push(
                        dup.model(),
                    ));
                    assert(Schema::models(old_alts).push(dup.model()).to_multiset()
                        =~= Schema::models(old_alts).to_multiset().insert(dup.model()));
                    assert(spec_alternatives(ss[i as int]) =~= Multiset::singleton(ss[i as int]));
                    assert(Schema::models(alternatives@).to_multiset() =~= group_alternatives(
                        ss.take(i as int),
                    ).add(spec_alternatives(ss[i as int])));
                }
            },
        }
        i = i + 1;
    }
    proof {
        assert(ss.take(ss.len() as int) =~= ss);
    }
    Schema::OneOf(alternatives)
}

/// Whether the accumulated content already serves a content type.
fn content_has(content: &Vec<ContentEntry>, content_type: &String) -> (r: bool)
    ensures
        r == exists|p: int| 0 <= p < content@.len() && #[trigger] content@[p].content_type@
            == content_type@,
{
    let mut p: usize = 0;
    while p < content.len()
        invariant
            p <= content@.len(),
            forall|q: int| 0 <= q < p ==> (#[trigger] content@[q].content_type@) != content_type@,
        decreases content@.len() - p,
    {
        if content[p].content_type == *content_type {
            return true;
        }
        p = p + 1;
    }
    false
}

/// The merged response descriptor for one status code: its description is
/// the code's canonical reason, and its content unions the contributed
/// content types, composing colliding schemas into a one-of.
pub fn merge_response(code: u16, descs: &Vec<&ResponseDescriptor>) -> (r: ResponseDescriptor)
    requires
        spec_valid_status(code as int),
        forall|j: int| 0 <= j < descs@.len() ==> (#[trigger] descs@[j]).wf(),
    ensures
        r.model() == spec_merge_descriptor(code, desc_ref_models(descs@)),
        r.wf(),
{
    proof {
        lemma_desc_ref_models(descs@);
        lemma_content_keys_mem(desc_ref_models(descs@));
    }
    let ghost ds = desc_ref_models(descs@);
    let description = canonical_reason(code);
    let mut content: Vec<ContentEntry> = Vec::new();
    let mut i: usize = 0;
    while i < descs.len()
        invariant
            i <= descs@.len(),
            ds == desc_ref_models(descs@),
            forall|a: int| 0 <= a < descs@.len() ==> (#[trigger] descs@[a]).wf(),
            ds.len() == descs@.len(),
            forall|a: int| 0 <= a < descs@.len() ==> ds[a] == descs@[a].model(),
            forall|p: int, q: int|
                0 <= p < q < content@.len() ==> content@[p].content_type@
                    != content@[q].content_type@,
            forall|p: int|
                0 <= p < content@.len() ==> content_keys(ds).contains(
                    #[trigger] content@[p].content_type@,
                ) && content@[p].schema.model() == spec_merge_content(
                    schemas_for(ds, content@[p].content_type@),
                ),
            forall|a: int, b: int|
                0 <= a < i && 0 <= b < descs@[a].content@.len() ==> exists|p: int|
                    0 <= p < content@.len() && content@[p].content_type@
                        == (#[trigger] descs@[a].content@[b].content_type@),
        decreases descs@.len() - i,
    {
        let row = descs[i];
        let mut j: usize = 0;
        while j < row.content.len()
            invariant
                i < descs@.len(),
                j <= row.content@.len(),
                row == descs@[i as int],
                ds == desc_ref_models(descs@),
                forall|a: int| 0 <= a < descs@.len() ==> (#[trigger] descs@[a]).wf(),
                ds.len() == descs@.len(),
                forall|a: int| 0 <= a < descs@.len() ==> ds[a] == descs@[a].model(),
                forall|p: int, q: int|
                    0 <= p < q < content@.len() ==> content@[p].content_type@
                        != content@[q].content_type@,
                forall|p: int|
                    0 <= p < content@.len() ==> content_keys(ds).contains(
                        #[trigger] content@[p].content_type@,
                    ) && content@[p].schema.model() == spec_merge_content(
                        schemas_for(ds, content@[p].content_type@),
                    ),
                forall|a: int, b: int|
                    0 <= a < i && 0 <= b < descs@[a].content@.len() ==> exists|p: int|
                        0 <= p < content@.len() && content@[p].content_type@
                            == (#[trigger] descs@[a].content@[b].content_type@),
                forall|b: int|
                    0 <= b < j ==> exists|p: int|
                        0 <= p < content@.len() && content@[p].content_type@
                            == (#[trigger] descs@[i as int].content@[b].content_type@),
            decreases row.content@.len() - j,
        {
            let content_type = &row.content[j].content_type;
            if !content_has(&content, content_type) {
                proof {
                    lemma_content_map_at(descs@[i as int].content@, j as int);
                    assert(ds[i as int].content.contains_key(content_type@));
                    lemma_content_keys_mem(ds);
                    assert(content_keys(ds).contains(content_type@));
                    lemma_schemas_for_nonempty(ds, content_type@);
                }
                let schemas = collect_schemas(descs, content_type);
                proof {
                    lemma_schema_ref_models(schemas@);
                }
                let merged = merge_content(&schemas);
                let ghost old_content = content@;
                content.push(
                    ContentEntry { content_type: content_type.clone(), schema: merged },
                );
                proof {
                    assert(content@.drop_last() =~= old_content);
                    assert(forall|p: int|
                        0 <= p < old_content.len() ==> content@[p] == old_content[p]);
                    assert(content@[content@.len() - 1].content_type@ == content_type@);
                }
            }
            j = j + 1;
        }
        i = i + 1;
    }
    let r = ResponseDescriptor { description, content };
    proof {
        lemma_content_map_domain(r.content@);
        let merged_content = spec_merge_descriptor(code, ds).content;
        assert forall|k: Seq<char>| #[trigger]
            r.model().content.contains_key(k) implies merged_content.contains_key(k)
            && r.model().content[k] == merged_content[k] by {
            let p = choose|p: int| 0 <= p < r.content@.len() && r.content@[p].content_type@ == k;
            lemma_content_map_at(r.content@, p);
        }
        assert forall|k: Seq<char>| #[trigger]
            merged_content.contains_key(k) implies r.model().content.contains_key(k) by {
            assert(content_keys(ds).contains(k));
            let a2 = choose|a2: int|
                0 <= a2 < ds.len() && #[trigger] ds[a2].content.contains_key(k);
            lemma_content_map_domain(descs@[a2].content@);
            let b = choose|b: int|
                0 <= b < descs@[a2].content@.len() && descs@[a2].content@[b].content_type@ == k;
            assert(exists|p: int|
                0 <= p < r.content@.len() && r.content@[p].content_type@ == k);
        }
        assert(r.model().content =~= merged_content);
        assert(r.model() =~~= spec_merge_descriptor(code, ds));
    }
    r
}

/// The merge of a sequence of response catalogues. The result's keys are
/// exactly the union of the input keys; each status's descriptor carries
/// the canonical reason of its code as description and the union of the
/// contributed content, with colliding schemas composed into a one-of.
/// Merging fails exactly when some input catalogue's key is not a valid
/// status-code text; the error names such a key, and nothing is merged.
pub fn merge_responses(catalogues: &Vec<ResponseCatalogue>) -> (r: Result<
    ResponseCatalogue,
    StatusParseError,
>)
    requires
        forall|i: int| 0 <= i < catalogues@.len() ==> (#[trigger] catalogues@[i]).wf(),
    ensures
        match r {
            Ok(m) => all_statuses_valid(cat_models(catalogues@)) && m.wf() && m.model()
                == spec_merge(cat_models(catalogues@)) && spec_canonical(m.model()),
            Err(e) => !all_statuses_valid(cat_models(catalogues@)) && spec_parse_status(
                e.status@,
            ) is None && exists|i: int|
                0 <= i < cat_models(catalogues@).len() && #[trigger] cat_models(
                    catalogues@,
                )[i].contains_key(e.status@),
        },
{
    proof {
        lemma_cat_models(catalogues@);
    }
    let ghost cs = cat_models(catalogues@);
    match check_statuses(catalogues) {
        Some(status) => {
            return Err(StatusParseError { status });
        },
        None => {},
    }
    let mut out = ResponseCatalogue::new();
    let mut i: usize = 0;
    while i < catalogues.len()
        invariant
            i <= catalogues@.len(),
            cs == cat_models(catalogues@),
            forall|a: int| 0 <= a < catalogues@.len() ==> (#[trigger] catalogues@[a]).wf(),
            cs.len() == catalogues@.len(),
            forall|a: int| 0 <= a < catalogues@.len() ==> cs[a] == catalogues@[a].model(),
            all_statuses_valid(cs),
            out.wf(),
            out.model().dom() =~= union_keys(cs.take(i as int)),
            forall|k: Seq<char>| #[trigger]
                out.model().contains_key(k) ==> out.model()[k] == spec_merge_descriptor(
                    spec_code_of(k),
                    descs_for(cs, k),
                ),
        decreases catalogues@.len() - i,
    {
        let row = &catalogues[i];
        let mut j: usize = 0;
        while j < row.entries.len()
            invariant
                i < catalogues@.len(),
                j <= row.entries@.len(),
                row == &catalogues@[i as int],
                cs == cat_models(catalogues@),
                forall|a: int| 0 <= a < catalogues@.len() ==> (#[trigger] catalogues@[a]).wf(),
                cs.len() == catalogues@.len(),
                forall|a: int| 0 <= a < catalogues@.len() ==> cs[a] == catalogues@[a].model(),
                all_statuses_valid(cs),
                out.wf(),
                forall|k: Seq<char>| #[trigger]
                    out.model().contains_key(k) <==> union_keys(cs.take(i as int)).contains(k)
                        || exists|b: int|
                        0 <= b < j && (#[trigger] row.entries@[b].status@) == k,
                forall|k: Seq<char>| #[trigger]
                    out.model().contains_key(k) ==> out.model()[k] == spec_merge_descriptor(
                        spec_code_of(k),
                        descs_for(cs, k),
                    ),
            decreases row.entries@.len() - j,
        {
            let status = &row.entries[j].status;
            proof {
                lemma_entry_map_at(catalogues@[i as int].entries@, j as int);
                assert(cs[i as int].contains_key(status@));
            }
            match out.get(status) {
                Some(_) => {},
                None => {
                    let code = match parse_status(status.as_str()) {
                        Some(code) => code,
                        None => unreached(),
                    };
                    let descriptors = collect_descs(catalogues, status);
                    let merged = merge_response(code, &descriptors);
                    let ghost old_entries = out.entries@;
                    out.entries.push(
                        CatalogueEntry { status: status.clone(), descriptor: merged },
                    );
                    proof {
                        assert(out.entries@.drop_last() =~= old_entries);
                        lemma_entry_map_domain(old_entries);
                        assert(out.model() == ResponseCatalogue::entry_map(
                            old_entries,
                        ).insert(status@, merged.model()));
                        assert(code == spec_code_of(status@));
                    }
                },
            }
            j = j + 1;
        }
        proof {
            lemma_union_keys_take_step(cs, i as int);
            lemma_entry_map_domain(catalogues@[i as int].entries@);
            assert forall|k: Seq<char>| #[trigger]
                out.model().contains_key(k) implies union_keys(cs.take(i as int + 1)).contains(
                k,
            ) by {
                if !union_keys(cs.take(i as int)).contains(k) {
                    let b = choose|b: int|
                        0 <= b < row.entries@.len() && (#[trigger] row.entries@[b].status@) == k;
                    assert(cs[i as int].contains_key(k));
                }
            }
            assert forall|k: Seq<char>| #[trigger]
                union_keys(cs.take(i as int + 1)).contains(k) implies out.model().contains_key(
                k,
            ) by {
                if !union_keys(cs.take(i as int)).contains(k) {
                    assert(cs[i as int].contains_key(k));
                    let b = choose|b: int|
                        0 <= b < catalogues@[i as int].entries@.len()
                            && catalogues@[i as int].entries@[b].status@ == k;
                }
            }
            assert(out.model().dom() =~= union_keys(cs.take(i as int + 1)));
        }
        i = i + 1;
    }
    proof {
        assert(cs.take(cs.len() as int) =~= cs);
        assert(out.model().dom() =~= union_keys(cs));
        assert(out.model() =~~= spec_merge(cs));
        lemma_union_keys(cs);
    }
    Ok(out)
}

} // verus!
