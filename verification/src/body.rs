use vstd::prelude::*;
use vstd::string::*;

use crate::declaration::{HttpErrorData, SpecData};
use crate::resolver::{
    field_models, lemma_decl_models, lemma_field_models, spec_find, Declarations, ErrorValue,
    SpecValue,
};

verus! {

broadcast use vstd::seq::group_seq_axioms, vstd::std_specs::vec::group_vec_axioms;

/// The lower-case form of an ASCII upper-case letter.
pub open spec fn spec_lower_char(c: char) -> char {
    if 65 <= c as u32 <= 90 {
        ((c as u8) + 32) as char
    } else {
        c
    }
}

/// The one-character text of the lower-case form of an ASCII
/// upper-case letter.
fn lower_str(c: char) -> (r: Option<&'static str>)
    ensures
        match r {
            Some(s) => 65 <= c as u32 <= 90 && s@ =~= seq![spec_lower_char(c)],
            None => !(65 <= c as u32 <= 90),
        },
{
    proof {
        reveal_strlit("a");
        reveal_strlit("b");
        reveal_strlit("c");
        reveal_strlit("d");
        reveal_strlit("e");
        reveal_strlit("f");
        reveal_strlit("g");
        reveal_strlit("h");
        reveal_strlit("i");
        reveal_strlit("j");
        reveal_strlit("k");
        reveal_strlit("l");
        reveal_strlit("m");
        reveal_strlit("n");
        reveal_strlit("o");
        reveal_strlit("p");
        reveal_strlit("q");
        reveal_strlit("r");
        reveal_strlit("s");
        reveal_strlit("t");
        reveal_strlit("u");
        reveal_strlit("v");
        reveal_strlit("w");
        reveal_strlit("x");
        reveal_strlit("y");
        reveal_strlit("z");
    }
    if c == 'A' {
        Some("a")
    } else if c == 'B' {
        Some("b")
    } else if c == 'C' {
        Some("c")
    } else if c == 'D' {
        Some("d")
    } else if c == 'E' {
        Some("e")
    } else if c == 'F' {
        Some("f")
    } else if c == 'G' {
        Some("g")
    } else if c == 'H' {
        Some("h")
    } else if c == 'I' {
        Some("i")
    } else if c == 'J' {
        Some("j")
    } else if c == 'K' {
        Some("k")
    } else if c == 'L' {
        Some("l")
    } else if c == 'M' {
        Some("m")
    } else if c == 'N' {
        Some("n")
    } else if c == 'O' {
        Some("o")
    } else if c == 'P' {
        Some("p")
    } else if c == 'Q' {
        Some("q")
    } else if c == 'R' {
        Some("r")
    } else if c == 'S' {
        Some("s")
    } else if c == 'T' {
        Some("t")
    } else if c == 'U' {
        Some("u")
    } else if c == 'V' {
        Some("v")
    } else if c == 'W' {
        Some("w")
    } else if c == 'X' {
        Some("x")
    } else if c == 'Y' {
        Some("y")
    } else if c == 'Z' {
        Some("z")
    } else {
        None
    }
}

/// The lower-camel-case form of a variant name: its first letter lowered.
pub open spec fn spec_lower_first(s: Seq<char>) -> Seq<char> {
    if s.len() == 0 {
        s
    } else {
        seq![spec_lower_char(s[0])] + s.drop_first()
    }
}

/// The escaped form of one character in a serialized text value.
pub open spec fn spec_escape_char(c: char) -> Seq<char> {
    if c == '"' {
        seq!['\\', '"']
    } else if c == '\\' {
        seq!['\\', '\\']
    } else if c == '\n' {
        seq!['\\', 'n']
    } else if c == '\r' {
        seq!['\\', 'r']
    } else if c == '\t' {
        seq!['\\', 't']
    } else {
        seq![c]
    }
}

/// The escaped form of a serialized text value.
pub open spec fn spec_escape(s: Seq<char>) -> Seq<char>
    decreases s.len(),
{
    if s.len() == 0 {
        Seq::empty()
    } else {
        spec_escape_char(s.first()) + spec_escape(s.drop_first())
    }
}

/// Escaping distributes over concatenation.
pub proof fn lemma_escape_concat(a: Seq<char>, b: Seq<char>)
    ensures
        spec_escape(a + b) =~= spec_escape(a) + spec_escape(b),
    decreases a.len(),
{
    if a.len() == 0 {
        assert(a + b =~= b);
    } else {
        assert((a + b).drop_first() =~= a.drop_first() + b);
        lemma_escape_concat(a.drop_first(), b);
    }
}

/// The serialized text of one field: its key and escaped value, quoted.
pub open spec fn spec_pair(p: (Seq<char>, Seq<char>)) -> Seq<char> {
    seq!['"'] + spec_escape(p.0) + seq!['"', ':', '"'] + spec_escape(p.1) + seq!['"']
}

/// The serialized text of every field after the first, each preceded by a
/// comma.
pub open spec fn spec_render_rest(fields: Seq<(Seq<char>, Seq<char>)>) -> Seq<char>
    decreases fields.len(),
{
    if fields.len() == 0 {
        Seq::empty()
    } else {
        seq![','] + spec_pair(fields.first()) + spec_render_rest(fields.drop_first())
    }
}

/// The serialized text of a field list, without the surrounding braces.
pub open spec fn spec_render_inner(fields: Seq<(Seq<char>, Seq<char>)>) -> Seq<char> {
    if fields.len() == 0 {
        Seq::empty()
    } else {
        spec_pair(fields.first()) + spec_render_rest(fields.drop_first())
    }
}

/// The serialized body text of a field list: a tagged object.
pub open spec fn spec_render(fields: Seq<(Seq<char>, Seq<char>)>) -> Seq<char> {
    seq!['{'] + spec_render_inner(fields) + seq!['}']
}

/// Appending a field appends a comma and its text, except to an empty
/// list.
pub proof fn lemma_render_rest_push(fields: Seq<(Seq<char>, Seq<char>)>, p: (Seq<char>, Seq<char>))
    ensures
        spec_render_rest(fields.push(p)) =~= spec_render_rest(fields) + seq![','] + spec_pair(p),
    decreases fields.len(),
{
    if fields.len() == 0 {
        assert(fields.push(p).drop_first() =~= Seq::<(Seq<char>, Seq<char>)>::empty());
        assert(spec_render_rest(Seq::<(Seq<char>, Seq<char>)>::empty()) =~= Seq::<char>::empty());
        assert(fields.push(p).first() == p);
    } else {
        assert(fields.push(p).drop_first() =~= fields.drop_first().push(p));
        lemma_render_rest_push(fields.drop_first(), p);
    }
}

/// Appending a field to a rendered list appends its text, with a comma
/// where fields precede it.
pub proof fn lemma_render_inner_push(fields: Seq<(Seq<char>, Seq<char>)>, p: (Seq<char>, Seq<char>))
    ensures
        spec_render_inner(fields.push(p)) =~= if fields.len() == 0 {
            spec_pair(p)
        } else {
            spec_render_inner(fields) + seq![','] + spec_pair(p)
        },
{
    if fields.len() == 0 {
        assert(fields.push(p).drop_first() =~= Seq::<(Seq<char>, Seq<char>)>::empty());
        assert(spec_render_rest(Seq::<(Seq<char>, Seq<char>)>::empty()) =~= Seq::<char>::empty());
        assert(fields.push(p).first() == p);
    } else {
        assert(fields.push(p).first() == fields.first());
        assert(fields.push(p).drop_first() =~= fields.drop_first().push(p));
        lemma_render_rest_push(fields.drop_first(), p);
    }
}

/// A field list with the given key set to the given value: the first field
/// with that key is replaced in place; where none bears it, the field is
/// appended.
pub open spec fn spec_upsert(
    fields: Seq<(Seq<char>, Seq<char>)>,
    k: Seq<char>,
    val: Seq<char>,
) -> Seq<(Seq<char>, Seq<char>)>
    decreases fields.len(),
{
    if fields.len() == 0 {
        seq![(k, val)]
    } else if fields.first().0 == k {
        seq![(k, val)] + fields.drop_first()
    } else {
        seq![fields.first()] + spec_upsert(fields.drop_first(), k, val)
    }
}

/// A field list with every field of another set into it, in order: the
/// flattening of a wrapped error's fields alongside the tag, where a later
/// field for the same key overrides an earlier one.
pub open spec fn spec_upsert_all(
    base: Seq<(Seq<char>, Seq<char>)>,
    rest: Seq<(Seq<char>, Seq<char>)>,
) -> Seq<(Seq<char>, Seq<char>)>
    decreases rest.len(),
{
    if rest.len() == 0 {
        base
    } else {
        spec_upsert_all(spec_upsert(base, rest.first().0, rest.first().1), rest.drop_first())
    }
}

/// Setting a key that first occurs at position `p` replaces that field in
/// place.
pub proof fn lemma_upsert_found(
    fields: Seq<(Seq<char>, Seq<char>)>,
    k: Seq<char>,
    val: Seq<char>,
    p: int,
)
    requires
        0 <= p < fields.len(),
        fields[p].0 == k,
        forall|j: int| 0 <= j < p ==> (#[trigger] fields[j]).0 != k,
    ensures
        spec_upsert(fields, k, val) =~= fields.update(p, (k, val)),
    decreases p,
{
    if p == 0 {
        assert(fields.update(0, (k, val)) =~= seq![(k, val)] + fields.drop_first());
    } else {
        assert(fields[0].0 != k);
        lemma_upsert_found(fields.drop_first(), k, val, p - 1);
        assert(fields.drop_first().update(p - 1, (k, val)) =~= fields.update(
            p,
            (k, val),
        ).drop_first());
        assert(spec_upsert(fields, k, val) =~= seq![fields.first()] + spec_upsert(
            fields.drop_first(),
            k,
            val,
        ));
        assert(fields.update(p, (k, val)).first() == fields.first());
        assert(fields.update(p, (k, val)) =~= seq![fields.first()] + fields.update(
            p,
            (k, val),
        ).drop_first());
    }
}

/// Setting a key that no field bears appends the field.
pub proof fn lemma_upsert_absent(fields: Seq<(Seq<char>, Seq<char>)>, k: Seq<char>, val: Seq<char>)
    requires
        forall|j: int| 0 <= j < fields.len() ==> (#[trigger] fields[j]).0 != k,
    ensures
        spec_upsert(fields, k, val) =~= fields.push((k, val)),
    decreases fields.len(),
{
    if fields.len() > 0 {
        assert(fields[0].0 != k);
        lemma_upsert_absent(fields.drop_first(), k, val);
        assert(fields.push((k, val)).drop_first() =~= fields.drop_first().push((k, val)));
    }
}

/// The serialized fields of an error value of declaration `d`, where the
/// value's shape fits the declaration: a struct error's own fields; for an
/// enum value a `code` field holding the variant's lower-camel-case name,
/// with a wrapped value's own serialized fields flattened alongside it —
/// a later field overrides an earlier one for the same key, so a nested
/// tag wins over the outer one. An excluded payload contributes nothing.
pub open spec fn spec_body_fields(
    decls: Seq<crate::declaration::SpecDecl>,
    d: int,
    v: SpecValue,
) -> Option<Seq<(Seq<char>, Seq<char>)>>
    decreases v,
{
    if !(0 <= d < decls.len()) {
        None
    } else {
        match decls[d].data {
            SpecData::Struct(_) => match v {
                SpecValue::Struct { fields } => Some(fields),
                _ => None,
            },
            SpecData::Enum(e) => match v {
                SpecValue::Struct { .. } => None,
                SpecValue::Unit { variant } => if 0 <= variant < e.variants.len() {
                    Some(seq![("code"@, spec_lower_first(e.variants[variant].name))])
                } else {
                    None
                },
                SpecValue::Wrapped { variant, inner } => if 0 <= variant < e.variants.len() {
                    let var = e.variants[variant];
                    let base = seq![("code"@, spec_lower_first(var.name))];
                    match var.attribute {
                        Some(_) => match var.field {
                            Some(_) => match *inner {
                                SpecValue::Struct { fields } => Some(spec_upsert_all(base, fields)),
                                _ => None,
                            },
                            None => Some(base),
                        },
                        None => match var.field {
                            Some(target) => match spec_find(decls, target) {
                                Some(j) => match spec_body_fields(decls, j, *inner) {
                                    Some(fs) => Some(spec_upsert_all(base, fs)),
                                    None => None,
                                },
                                None => None,
                            },
                            None => None,
                        },
                    }
                } else {
                    None
                },
            },
        }
    }
}

/// The lower-camel-case form of a name: its first letter lowered.
pub fn lower_first(s: &String) -> (r: String)
    ensures
        r@ == spec_lower_first(s@),
{
    let n = s.as_str().unicode_len();
    if n == 0 {
        return s.clone();
    }
    let c = s.as_str().get_char(0);
    match lower_str(c) {
        Some(head) => {
            let mut out = head.to_owned();
            out.append(s.as_str().substring_char(1, n));
            proof {
                assert(out@ =~= spec_lower_first(s@));
            }
            out
        },
        None => {
            proof {
                assert(seq![spec_lower_char(s@[0])] + s@.drop_first() =~= s@);
            }
            s.clone()
        },
    }
}

/// Appends the escaped form of a text to an output.
fn append_escaped(out: &mut String, t: &str)
    ensures
        final(out)@ == old(out)@ + spec_escape(t@),
{
    proof {
        reveal_strlit("\\\"");
        reveal_strlit("\\\\");
        reveal_strlit("\\n");
        reveal_strlit("\\r");
        reveal_strlit("\\t");
        assert(t@.take(0) =~= Seq::<char>::empty());
        assert(old(out)@ + Seq::<char>::empty() =~= old(out)@);
    }
    let n = t.unicode_len();
    let mut i: usize = 0;
    while i < n
        invariant
            i <= n,
            n == t@.len(),
            out@ == old(out)@ + spec_escape(t@.take(i as int)),
        decreases n - i,
    {
        proof {
            reveal_strlit("\\\"");
            reveal_strlit("\\\\");
            reveal_strlit("\\n");
            reveal_strlit("\\r");
            reveal_strlit("\\t");
            assert(t@.take(i as int + 1) =~= t@.take(i as int) + seq![t@[i as int]]);
            lemma_escape_concat(t@.take(i as int), seq![t@[i as int]]);
            assert(seq![t@[i as int]].drop_first() =~= Seq::<char>::empty());
            assert(spec_escape(Seq::<char>::empty()) =~= Seq::<char>::empty());
            assert(seq![t@[i as int]].first() == t@[i as int]);
            assert(spec_escape(seq![t@[i as int]]) =~= spec_escape_char(t@[i as int]));
        }
        let c = t.get_char(i);
        if c == '"' {
            out.append("\\\"");
        } else if c == '\\' {
            out.append("\\\\");
        } else if c == '\n' {
            out.append("\\n");
        } else if c == '\r' {
            out.append("\\r");
        } else if c == '\t' {
            out.append("\\t");
        } else {
            out.append(t.substring_char(i, i + 1));
        }
        proof {
            assert(out@ =~= old(out)@ + spec_escape(t@.take(i as int + 1)));
        }
        i = i + 1;
    }
    proof {
        assert(t@.take(n as int) =~= t@);
    }
}

/// The serialized body text of a field list: a tagged object with each
/// key and escaped value quoted.
pub fn render_fields(fields: &Vec<(String, String)>) -> (r: String)
    ensures
        r@ == spec_render(field_models(fields@)),
{
    proof {
        reveal_strlit("{");
        reveal_strlit("}");
        reveal_strlit(",");
        reveal_strlit("\"");
        reveal_strlit("\":\"");
        lemma_field_models(fields@);
    }
    let ghost fm = field_models(fields@);
    let mut out = String::new();
    out.append("{");
    proof {
        assert(fm.take(0) =~= Seq::<(Seq<char>, Seq<char>)>::empty());
        assert(out@ =~= seq!['{'] + spec_render_inner(fm.take(0)));
    }
    let mut i: usize = 0;
    while i < fields.len()
        invariant
            i <= fields@.len(),
            fm == field_models(fields@),
            fm.len() == fields@.len(),
            forall|a: int| 0 <= a < fields@.len() ==> fm[a] == (fields@[a].0@, fields@[a].1@),
            out@ == seq!['{'] + spec_render_inner(fm.take(i as int)),
        decreases fields@.len() - i,
    {
        proof {
            reveal_strlit("{");
            reveal_strlit("}");
            reveal_strlit(",");
            reveal_strlit("\"");
            reveal_strlit("\":\"");
            assert(fm.take(i as int + 1) =~= fm.take(i as int).push(fm[i as int]));
            lemma_render_inner_push(fm.take(i as int), fm[i as int]);
        }
        if i > 0 {
            out.append(",");
        }
        out.append("\"");
        append_escaped(&mut out, fields[i].0.as_str());
        out.append("\":\"");
        append_escaped(&mut out, fields[i].1.as_str());
        out.append("\"");
        proof {
            assert(spec_pair(fm[i as int]) =~= seq!['"'] + spec_escape(fields@[i as int].0@) + seq![
                '"',
                ':',
                '"',
            ] + spec_escape(fields@[i as int].1@) + seq!['"']);
            assert(out@ =~= seq!['{'] + spec_render_inner(fm.take(i as int + 1)));
        }
        i = i + 1;
    }
    out.append("}");
    proof {
        assert(fm.take(fm.len() as int) =~= fm);
        assert(out@ =~= spec_render(fm));
    }
    out
}

/// Copies of a field list with the same views.
fn clone_fields(fields: &Vec<(String, String)>) -> (r: Vec<(String, String)>)
    ensures
        field_models(r@) == field_models(fields@),
{
    proof {
        lemma_field_models(fields@);
    }
    let mut out: Vec<(String, String)> = Vec::new();
    let mut i: usize = 0;
    while i < fields.len()
        invariant
            i <= fields@.len(),
            field_models(out@) =~= field_models(fields@).take(i as int),
            field_models(fields@).len() == fields@.len(),
            forall|a: int| 0 <= a < fields@.len() ==> field_models(fields@)[a] == (
                fields@[a].0@,
                fields@[a].1@,
            ),
        decreases fields@.len() - i,
    {
        let ghost old_out = out@;
        out.push((fields[i].0.clone(), fields[i].1.clone()));
        proof {
            assert(out@.drop_last() =~= old_out);
            lemma_field_models(out@);
            lemma_field_models(old_out);
            assert(field_models(out@) =~= field_models(fields@).take(i as int + 1));
        }
        i = i + 1;
    }
    proof {
        assert(field_models(fields@).take(fields@.len() as int) =~= field_models(fields@));
    }
    out
}

/// Sets a key in a field list: the first field with that key is replaced
/// in place; where none bears it, the field is appended.
fn upsert(fields: &mut Vec<(String, String)>, k: String, val: String)
    ensures
        field_models(final(fields)@) == spec_upsert(field_models(old(fields)@), k@, val@),
{
    proof {
        lemma_field_models(old(fields)@);
    }
    let mut p: usize = 0;
    while p < fields.len()
        invariant
            p <= fields@.len(),
            fields@ == old(fields)@,
            forall|j: int| 0 <= j < p ==> (#[trigger] fields@[j]).0@ != k@,
        decreases fields@.len() - p,
    {
        if fields[p].0 == k {
            proof {
                lemma_field_models(fields@);
                lemma_upsert_found(field_models(fields@), k@, val@, p as int);
            }
            let ghost pre = fields@;
            fields[p] = (k, val);
            proof {
                lemma_field_models(fields@);
                lemma_field_models(pre);
                assert(field_models(fields@) =~= field_models(pre).update(
                    p as int,
                    (k@, val@),
                ));
            }
            return ;
        }
        p = p + 1;
    }
    proof {
        lemma_field_models(fields@);
        assert forall|j: int|
            0 <= j < field_models(fields@).len() implies (#[trigger] field_models(fields@)[j]).0
            != k@ by {
            assert(fields@[j].0@ != k@);
        }
        lemma_upsert_absent(field_models(fields@), k@, val@);
    }
    let ghost pre = fields@;
    fields.push((k, val));
    proof {
        assert(fields@.drop_last() =~= pre);
        lemma_field_models(fields@);
        lemma_field_models(pre);
        assert(field_models(fields@) =~= field_models(pre).push((k@, val@)));
    }
}

/// Sets every field of `rest` into `base`, in order.
fn upsert_all(base: &mut Vec<(String, String)>, rest: Vec<(String, String)>)
    ensures
        field_models(final(base)@) == spec_upsert_all(
            field_models(old(base)@),
            field_models(rest@),
        ),
{
    proof {
        lemma_field_models(rest@);
        assert(field_models(rest@).skip(0) =~= field_models(rest@));
    }
    let ghost rm = field_models(rest@);
    let mut i: usize = 0;
    while i < rest.len()
        invariant
            i <= rest@.len(),
            rm == field_models(rest@),
            rm.len() == rest@.len(),
            forall|a: int| 0 <= a < rest@.len() ==> rm[a] == (rest@[a].0@, rest@[a].1@),
            spec_upsert_all(field_models(base@), rm.skip(i as int)) == spec_upsert_all(
                field_models(old(base)@),
                rm,
            ),
        decreases rest@.len() - i,
    {
        proof {
            assert(rm.skip(i as int).first() == rm[i as int]);
            assert(rm.skip(i as int).drop_first() =~= rm.skip(i as int + 1));
        }
        upsert(base, rest[i].0.clone(), rest[i].1.clone());
        i = i + 1;
    }
    proof {
        assert(rm.skip(rm.len() as int) =~= Seq::<(Seq<char>, Seq<char>)>::empty());
    }
}

impl Declarations {
    /// The serialized fields of an error value of declaration `d`, where
    /// its shape fits the declaration.
    fn body_fields(&self, d: usize, value: &ErrorValue) -> (r: Option<Vec<(String, String)>>)
        ensures
            match r {
                Some(fs) => spec_body_fields(self.model(), d as int, value.model()) == Some(
                    field_models(fs@),
                ),
                None => spec_body_fields(self.model(), d as int, value.model()) is None,
            },
        decreases value,
    {
        proof {
            lemma_decl_models(self.decls@);
        }
        if d >= self.decls.len() {
            return None;
        }
        let e = match &self.decls[d].data {
            HttpErrorData::Struct(_) => {
                match value {
                    ErrorValue::Struct { fields } => {
                        return Some(clone_fields(fields));
                    },
                    _ => {
                        return None;
                    },
                }
            },
            HttpErrorData::Enum(e) => e,
        };
        proof {
            crate::declaration::HttpErrorEnum::lemma_variant_models(e.variants@);
            assert(self.model()[d as int].data == self.decls@[d as int].data.model());
        }
        match value {
            ErrorValue::Unit { variant } => {
                if *variant >= e.variants.len() {
                    return None;
                }
                let code_text = lower_first(&e.variants[*variant].name);
                let fields: Vec<(String, String)> = vec![("code".to_owned(), code_text)];
                proof {
                    lemma_field_models(fields@);
                    assert(field_models(fields@) =~= seq![
                        ("code"@, spec_lower_first(e.variants@[*variant as int].name@)),
                    ]);
                }
                Some(fields)
            },
            ErrorValue::Wrapped { variant, inner } => {
                if *variant >= e.variants.len() {
                    return None;
                }
                let var = &e.variants[*variant];
                proof {
                    assert(self.model()[d as int].data->Enum_0.variants[*variant as int]
                        == var.model());
                }
                let code_text = lower_first(&var.name);
                let mut base: Vec<(String, String)> = vec![("code".to_owned(), code_text)];
                proof {
                    lemma_field_models(base@);
                    assert(field_models(base@) =~= seq![
                        ("code"@, spec_lower_first(var.name@)),
                    ]);
                }
                let rest: Vec<(String, String)> = match &var.attribute {
                    Some(_) => match &var.field {
                        Some(_) => match &**inner {
                            ErrorValue::Struct { fields } => clone_fields(fields),
                            _ => {
                                proof {
                                    match &**inner {
                                        ErrorValue::Struct { .. } => {
                                            assert(false);
                                        },
                                        ErrorValue::Unit { .. } => {
                                            assert(inner.model() is Unit);
                                        },
                                        ErrorValue::Wrapped { .. } => {
                                            assert(inner.model() is Wrapped);
                                        },
                                    }
                                    assert(spec_body_fields(
                                        self.model(),
                                        d as int,
                                        value.model(),
                                    ) is None);
                                }
                                return None;
                            },
                        },
                        None => Vec::new(),
                    },
                    None => match &var.field {
                        Some(target) => match self.find(target) {
                            Some(j) => match self.body_fields(j, inner) {
                                Some(fs) => fs,
                                None => {
                                    return None;
                                },
                            },
                            None => {
                                return None;
                            },
                        },
                        None => {
                            return None;
                        },
                    },
                };
                proof {
                    lemma_field_models(rest@);
                }
                upsert_all(&mut base, rest);
                Some(base)
            },
            ErrorValue::Struct { .. } => None,
        }
    }

    /// The serialized body of an error value of declaration `d`: a tagged
    /// object whose `code` field holds the variant's lower-camel-case name
    /// for enum errors and whose remaining fields are the struct's own, or
    /// for a wrapping variant the wrapped value's serialized fields
    /// flattened alongside the tag. Nothing is serialized for a value
    /// whose shape does not fit the declaration.
    pub fn serialize_body(&self, d: usize, value: &ErrorValue) -> (r: Option<String>)
        ensures
            match r {
                Some(s) => spec_body_fields(self.model(), d as int, value.model()) matches Some(fs)
                    && s@ == spec_render(fs),
                None => spec_body_fields(self.model(), d as int, value.model()) is None,
            },
    {
        match self.body_fields(d, value) {
            Some(fields) => Some(render_fields(&fields)),
            None => None,
        }
    }

    /// The response an error value of declaration `d` becomes: its
    /// resolved status code and its serialized body, where the value both
    /// resolves and serializes.
    pub fn into_response(&self, d: usize, value: &ErrorValue) -> (r: Option<(u16, String)>)
        ensures
            match r {
                Some(p) => crate::resolver::spec_status(self.model(), d as int, value.model())
                    == Some(p.0) && (spec_body_fields(self.model(), d as int, value.model()) matches
                    Some(fs) && p.1@ == spec_render(fs)),
                None => crate::resolver::spec_status(self.model(), d as int, value.model()) is None
                    || spec_body_fields(self.model(), d as int, value.model()) is None,
            },
    {
        let code = match self.status(d, value) {
            Some(code) => code,
            None => {
                return None;
            },
        };
        match self.serialize_body(d, value) {
            Some(body) => Some((code, body)),
            None => None,
        }
    }
}

} // verus!
