use vstd::prelude::*;
use vstd::multiset::Multiset;

verus! {

broadcast use vstd::seq::group_seq_axioms, vstd::std_specs::vec::group_vec_axioms;

/// Mathematical model of a payload schema: either a reference to a concrete
/// schema by name, or a one-of composition of alternatives. The alternatives
/// of a one-of are modelled as a multiset: their order is irrelevant, but
/// multiplicity is kept.
#[verifier::ext_equal]
pub enum SpecSchema {
    Ref(Seq<char>),
    OneOf(Multiset<SpecSchema>),
}

/// Mathematical model of a response descriptor: an optional description and
/// a map from content type to the schema served under it.
#[verifier::ext_equal]
pub struct SpecDescriptor {
    pub description: Option<Seq<char>>,
    pub content: Map<Seq<char>, SpecSchema>,
}

/// Mathematical model of a response catalogue: a map from status-code text
/// to the response descriptor declared for that status.
pub type SpecCatalogue = Map<Seq<char>, SpecDescriptor>;

/// A payload schema: a reference to a concrete schema by name, or a one-of
/// composition of alternatives.
#[derive(Debug, PartialEq, Eq)]
pub enum Schema {
    Ref(String),
    OneOf(Vec<Schema>),
}

/// One entry of a descriptor's content map: a content type and the schema
/// served under it.
#[derive(Debug, PartialEq, Eq)]
pub struct ContentEntry {
    pub content_type: String,
    pub schema: Schema,
}

/// A response descriptor: an optional human-readable description, and the
/// content served for the response, keyed by content type.
#[derive(Debug, PartialEq, Eq)]
pub struct ResponseDescriptor {
    pub description: Option<String>,
    pub content: Vec<ContentEntry>,
}

/// One entry of a response catalogue: a status-code text and the descriptor
/// of the response declared under it.
#[derive(Debug, PartialEq, Eq)]
pub struct CatalogueEntry {
    pub status: String,
    pub descriptor: ResponseDescriptor,
}

/// A response catalogue: the possible responses of an error type, keyed by
/// status-code text. Key order is irrelevant; keys are unique.
#[derive(Debug, PartialEq, Eq)]
pub struct ResponseCatalogue {
    pub entries: Vec<CatalogueEntry>,
}

impl Schema {
    /// The model of this schema.
    pub open spec fn model(self) -> SpecSchema
        decreases self,
    {
        match self {
            Schema::Ref(name) => SpecSchema::Ref(name@),
            Schema::OneOf(alts) => {
                proof {
                    assert(decreases_to!(alts => alts@));
                }
                SpecSchema::OneOf(Self::models(alts@).to_multiset())
            }
        }
    }

    /// The models of a sequence of schemas, elementwise.
    pub open spec fn models(alts: Seq<Schema>) -> Seq<SpecSchema>
        decreases alts,
    {
        if alts.len() == 0 {
            Seq::empty()
        } else {
            proof {
                assert(decreases_to!(alts => alts.drop_last()));
            }
            Self::models(alts.drop_last()).push(alts.last().model())
        }
    }

    /// A copy of this schema with the same model.
    pub fn duplicate(&self) -> (r: Schema)
        ensures
            r.model() == self.model(),
        decreases self,
    {
        match self {
            Schema::Ref(name) => Schema::Ref(name.clone()),
            Schema::OneOf(alts) => Schema::OneOf(Self::duplicate_all(alts)),
        }
    }

    /// Copies of a vector of schemas, elementwise, with the same models.
    pub fn duplicate_all(alts: &Vec<Schema>) -> (r: Vec<Schema>)
        ensures
            Self::models(r@) == Self::models(alts@),
        decreases alts,
    {
        let mut out: Vec<Schema> = Vec::new();
        let mut i: usize = 0;
        while i < alts.len()
            invariant
                i <= alts.len(),
                Self::models(out@) =~= Self::models(alts@).take(i as int),
            decreases alts@.len() - i,
        {
            proof {
                Self::lemma_models(out@);
                Self::lemma_models(alts@);
            }
            out.push(alts[i].duplicate());
            proof {
                Self::lemma_models(out@);
                assert(Self::models(out@) =~= Self::models(alts@).take(i as int + 1));
            }
            i = i + 1;
        }
        proof {
            Self::lemma_models(alts@);
            assert(Self::models(alts@).take(alts@.len() as int) =~= Self::models(alts@));
            assert(Self::models(out@) =~= Self::models(alts@));
        }
        out
    }

    /// `models` maps a sequence of schemas elementwise.
    pub proof fn lemma_models(alts: Seq<Schema>)
        ensures
            Self::models(alts).len() == alts.len(),
            forall|i: int| 0 <= i < alts.len() ==> Self::models(alts)[i] == alts[i].model(),
        decreases alts.len(),
    {
        if alts.len() > 0 {
            Self::lemma_models(alts.drop_last());
        }
    }
}

impl ResponseDescriptor {
    /// The content map described by a sequence of content entries; a later
    /// entry for the same content type overrides an earlier one.
    pub open spec fn content_map(entries: Seq<ContentEntry>) -> Map<Seq<char>, SpecSchema>
        decreases entries.len(),
    {
        if entries.len() == 0 {
            Map::empty()
        } else {
            Self::content_map(entries.drop_last()).insert(
                entries.last().content_type@,
                entries.last().schema.model(),
            )
        }
    }

    /// The model of this descriptor.
    pub open spec fn model(self) -> SpecDescriptor {
        SpecDescriptor {
            description: match self.description {
                Some(d) => Some(d@),
                None => None,
            },
            content: Self::content_map(self.content@),
        }
    }

    /// Well-formed: content types are unique.
    pub open spec fn wf(self) -> bool {
        forall|i: int, j: int|
            0 <= i < j < self.content@.len() ==> self.content@[i].content_type@
                != self.content@[j].content_type@
    }
}

impl ResponseCatalogue {
    /// The catalogue map described by a sequence of entries; a later entry
    /// for the same status overrides an earlier one.
    pub open spec fn entry_map(entries: Seq<CatalogueEntry>) -> SpecCatalogue
        decreases entries.len(),
    {
        if entries.len() == 0 {
            Map::empty()
        } else {
            Self::entry_map(entries.drop_last()).insert(
                entries.last().status@,
                entries.last().descriptor.model(),
            )
        }
    }

    /// The model of this catalogue.
    pub open spec fn model(self) -> SpecCatalogue {
        Self::entry_map(self.entries@)
    }

    /// Well-formed: statuses are unique and every descriptor is well-formed.
    pub open spec fn wf(self) -> bool {
        &&& forall|i: int, j: int|
            0 <= i < j < self.entries@.len() ==> self.entries@[i].status@
                != self.entries@[j].status@
        &&& forall|i: int| 0 <= i < self.entries@.len() ==> self.entries@[i].descriptor.wf()
    }

    /// An empty catalogue.
    pub fn new() -> (r: ResponseCatalogue)
        ensures
            r.model() == SpecCatalogue::empty(),
            r.wf(),
            r.entries@.len() == 0,
    {
        ResponseCatalogue { entries: Vec::new() }
    }
}

/// The domain of a content-entry sequence's map is the set of its keys.
pub proof fn lemma_content_map_domain(entries: Seq<ContentEntry>)
    ensures
        forall|k: Seq<char>| #[trigger]
            ResponseDescriptor::content_map(entries).dom().contains(k) <==> exists|i: int|
                0 <= i < entries.len() && entries[i].content_type@ == k,
    decreases entries.len(),
{
    if entries.len() > 0 {
        lemma_content_map_domain(entries.drop_last());
        assert forall|k: Seq<char>| #[trigger]
            ResponseDescriptor::content_map(entries).dom().contains(k) implies exists|i: int|
            0 <= i < entries.len() && entries[i].content_type@ == k by {
            if k == entries.last().content_type@ {
                assert(entries[entries.len() - 1].content_type@ == k);
            } else {
                assert(ResponseDescriptor::content_map(entries.drop_last()).dom().contains(k));
                let i = choose|i: int|
                    0 <= i < entries.drop_last().len() && entries.drop_last()[i].content_type@
                        == k;
                assert(entries[i].content_type@ == k);
            }
        }
        assert forall|k: Seq<char>|
            (exists|i: int|
                0 <= i < entries.len() && entries[i].content_type@
                    == k) implies #[trigger] ResponseDescriptor::content_map(
            entries,
        ).dom().contains(k) by {
            let i = choose|i: int| 0 <= i < entries.len() && entries[i].content_type@ == k;
            if i < entries.len() - 1 {
                assert(entries.drop_last()[i].content_type@ == k);
                assert(exists|j: int|
                    0 <= j < entries.drop_last().len() && entries.drop_last()[j].content_type@
                        == k);
                assert(ResponseDescriptor::content_map(entries.drop_last()).dom().contains(k));
            }
        }
    }
}

/// In a sequence of content entries with unique keys, each entry's schema is
/// the one the map assigns to its key.
pub proof fn lemma_content_map_at(entries: Seq<ContentEntry>, i: int)
    requires
        forall|p: int, q: int|
            0 <= p < q < entries.len() ==> entries[p].content_type@ != entries[q].content_type@,
        0 <= i < entries.len(),
    ensures
        ResponseDescriptor::content_map(entries).contains_key(entries[i].content_type@),
        ResponseDescriptor::content_map(entries)[entries[i].content_type@]
            == entries[i].schema.model(),
    decreases entries.len(),
{
    lemma_content_map_domain(entries);
    if i < entries.len() - 1 {
        lemma_content_map_at(entries.drop_last(), i);
        assert(entries.drop_last()[i] == entries[i]);
        assert(entries[i].content_type@ != entries.last().content_type@);
    }
}

/// The domain of a catalogue-entry sequence's map is the set of its keys.
pub proof fn lemma_entry_map_domain(entries: Seq<CatalogueEntry>)
    ensures
        forall|k: Seq<char>| #[trigger]
            ResponseCatalogue::entry_map(entries).dom().contains(k) <==> exists|i: int|
                0 <= i < entries.len() && entries[i].status@ == k,
    decreases entries.len(),
{
    if entries.len() > 0 {
        lemma_entry_map_domain(entries.drop_last());
        assert forall|k: Seq<char>| #[trigger]
            ResponseCatalogue::entry_map(entries).dom().contains(k) implies exists|i: int|
            0 <= i < entries.len() && entries[i].status@ == k by {
            if k == entries.last().status@ {
                assert(entries[entries.len() - 1].status@ == k);
            } else {
                assert(ResponseCatalogue::entry_map(entries.drop_last()).dom().contains(k));
                let i = choose|i: int|
                    0 <= i < entries.drop_last().len() && entries.drop_last()[i].status@ == k;
                assert(entries[i].status@ == k);
            }
        }
        assert forall|k: Seq<char>|
            (exists|i: int|
                0 <= i < entries.len() && entries[i].status@
                    == k) implies #[trigger] ResponseCatalogue::entry_map(entries).dom().contains(
            k,
        ) by {
            let i = choose|i: int| 0 <= i < entries.len() && entries[i].status@ == k;
            if i < entries.len() - 1 {
                assert(entries.drop_last()[i].status@ == k);
                assert(exists|j: int|
                    0 <= j < entries.drop_last().len() && entries.drop_last()[j].status@ == k);
                assert(ResponseCatalogue::entry_map(entries.drop_last()).dom().contains(k));
            }
        }
    }
}

/// In a sequence of catalogue entries with unique statuses, each entry's
/// descriptor is the one the map assigns to its status.
pub proof fn lemma_entry_map_at(entries: Seq<CatalogueEntry>, i: int)
    requires
        forall|p: int, q: int|
            0 <= p < q < entries.len() ==> entries[p].status@ != entries[q].status@,
        0 <= i < entries.len(),
    ensures
        ResponseCatalogue::entry_map(entries).contains_key(entries[i].status@),
        ResponseCatalogue::entry_map(entries)[entries[i].status@] == entries[i].descriptor.model(),
    decreases entries.len(),
{
    lemma_entry_map_domain(entries);
    if i < entries.len() - 1 {
        lemma_entry_map_at(entries.drop_last(), i);
        assert(entries.drop_last()[i] == entries[i]);
        assert(entries[i].status@ != entries.last().status@);
    }
}

impl ResponseDescriptor {
    /// The schema this descriptor serves under the given content type, if
    /// any.
    pub fn get_schema<'a>(&'a self, content_type: &String) -> (r: Option<&'a Schema>)
        requires
            self.wf(),
        ensures
            match r {
                Some(s) => self.model().content.contains_key(content_type@) && s.model()
                    == self.model().content[content_type@],
                None => !self.model().content.contains_key(content_type@),
            },
    {
        proof {
            lemma_content_map_domain(self.content@);
        }
        let mut i: usize = 0;
        while i < self.content.len()
            invariant
                i <= self.content@.len(),
                self.wf(),
                forall|j: int| 0 <= j < i ==> self.content@[j].content_type@ != content_type@,
            decreases self.content@.len() - i,
        {
            if self.content[i].content_type == *content_type {
                proof {
                    lemma_content_map_at(self.content@, i as int);
                }
                return Some(&self.content[i].schema);
            }
            i = i + 1;
        }
        None
    }
}

impl ResponseCatalogue {
    /// The descriptor this catalogue declares for the given status, if any.
    pub fn get<'a>(&'a self, status: &String) -> (r: Option<&'a ResponseDescriptor>)
        requires
            self.wf(),
        ensures
            match r {
                Some(d) => self.model().contains_key(status@) && d.model()
                    == self.model()[status@] && d.wf(),
                None => !self.model().contains_key(status@),
            },
    {
        proof {
            lemma_entry_map_domain(self.entries@);
        }
        let mut i: usize = 0;
        while i < self.entries.len()
            invariant
                i <= self.entries@.len(),
                self.wf(),
                forall|j: int| 0 <= j < i ==> self.entries@[j].status@ != status@,
            decreases self.entries@.len() - i,
        {
            if self.entries[i].status == *status {
                proof {
                    lemma_entry_map_at(self.entries@, i as int);
                }
                return Some(&self.entries[i].descriptor);
            }
            i = i + 1;
        }
        None
    }
}

} // verus!
