//! The dynamically-typed record produced from one native event, and the
//! enrichment step that replaces coded fields with provider-supplied text.
use vstd::prelude::*;

verus! {

broadcast use
    vstd::std_specs::vec::group_vec_axioms,
    vstd::string::group_string_axioms,
;

/// One event record: a JSON-like tree of objects, arrays and strings.
#[derive(Debug)]
pub enum Json {
    Obj(Vec<(String, Json)>),
    Arr(Vec<Json>),
    Text(String),
}

/// Mathematical model of a record: the same tree over character sequences.
pub enum JsonV {
    Obj(Seq<(Seq<char>, JsonV)>),
    Arr(Seq<JsonV>),
    Text(Seq<char>),
}

/// Placeholder used to totalize the view closures outside their index range.
pub open spec fn null_v() -> JsonV {
    JsonV::Text(Seq::empty())
}

/// Views of a record's object fields, in order.
pub open spec fn pairs_view(ps: Seq<(String, Json)>) -> Seq<(Seq<char>, JsonV)>
    decreases ps,
{
    Seq::new(
        ps.len(),
        |i: int|
            if 0 <= i < ps.len() {
                (ps[i].0@, jview(ps[i].1))
            } else {
                (Seq::empty(), null_v())
            },
    )
}

/// Views of a sequence of records, in order.
pub open spec fn jvals(vs: Seq<Json>) -> Seq<JsonV>
    decreases vs,
{
    Seq::new(
        vs.len(),
        |i: int|
            if 0 <= i < vs.len() {
                jview(vs[i])
            } else {
                null_v()
            },
    )
}

/// Structural view of a record: field-for-field, keys and strings as
/// character sequences, field order preserved.
pub open spec fn jview(j: Json) -> JsonV
    decreases j,
{
    match j {
        Json::Obj(ps) => JsonV::Obj(pairs_view(ps@)),
        Json::Arr(vs) => JsonV::Arr(jvals(vs@)),
        Json::Text(s) => JsonV::Text(s@),
    }
}

/// The view of an optional string.
pub open spec fn opt_str_v(o: Option<String>) -> Option<Seq<char>> {
    match o {
        Some(s) => Some(s@),
        None => None,
    }
}

/// The index of the first field named `k`, or -1 when there is none.
pub open spec fn idx_of_key(ps: Seq<(Seq<char>, JsonV)>, k: Seq<char>) -> int
    decreases ps.len(),
{
    if ps.len() == 0 {
        -1
    } else if ps[0].0 == k {
        0
    } else {
        let r = idx_of_key(ps.drop_first(), k);
        if r < 0 {
            -1
        } else {
            1 + r
        }
    }
}

proof fn lemma_idx_of_key(ps: Seq<(Seq<char>, JsonV)>, k: Seq<char>)
    ensures
        idx_of_key(ps, k) < 0 ==> forall|j: int| 0 <= j < ps.len() ==> ps[j].0 != k,
        idx_of_key(ps, k) >= 0 ==> 0 <= idx_of_key(ps, k) < ps.len() && ps[idx_of_key(ps, k)].0
            == k && (forall|j: int| 0 <= j < idx_of_key(ps, k) ==> ps[j].0 != k),
    decreases ps.len(),
{
    if ps.len() > 0 && ps[0].0 != k {
        lemma_idx_of_key(ps.drop_first(), k);
        assert(forall|j: int| 1 <= j < ps.len() ==> ps[j] == ps.drop_first()[j - 1]);
    }
}

/// Two field lists with the same names in the same places agree on where
/// any name first occurs.
proof fn lemma_idx_of_key_same_names(
    ps1: Seq<(Seq<char>, JsonV)>,
    ps2: Seq<(Seq<char>, JsonV)>,
    k: Seq<char>,
)
    requires
        ps1.len() == ps2.len(),
        forall|j: int| 0 <= j < ps1.len() ==> ps1[j].0 == ps2[j].0,
    ensures
        idx_of_key(ps1, k) == idx_of_key(ps2, k),
    decreases ps1.len(),
{
    if ps1.len() > 0 {
        assert(forall|j: int| 0 <= j < ps1.len() - 1 ==> ps1.drop_first()[j].0 == ps1[j + 1].0);
        assert(forall|j: int| 0 <= j < ps2.len() - 1 ==> ps2.drop_first()[j].0 == ps2[j + 1].0);
        lemma_idx_of_key_same_names(ps1.drop_first(), ps2.drop_first(), k);
    }
}

/// The field of an object record named `k`, when the record is an object
/// and holds one; the first occurrence decides.
pub open spec fn get_field(j: JsonV, k: Seq<char>) -> Option<JsonV> {
    match j {
        JsonV::Obj(ps) => if idx_of_key(ps, k) >= 0 {
            Some(ps[idx_of_key(ps, k)].1)
        } else {
            None
        },
        _ => None,
    }
}

/// Looks one field up in a record, by name.
pub fn obj_get<'a>(record: &'a Json, key: &str) -> (r: Option<&'a Json>)
    ensures
        match r {
            Some(v) => get_field(jview(*record), key@) == Some(jview(*v)),
            None => get_field(jview(*record), key@) is None,
        },
{
    match record {
        Json::Obj(ps) => {
            let ghost pv = pairs_view(ps@);
            let mut i: usize = 0;
            while i < ps.len()
                invariant
                    i <= ps@.len(),
                    pv == pairs_view(ps@),
                    jview(*record) == JsonV::Obj(pv),
                    forall|j: int| 0 <= j < i ==> pv[j].0 != key@,
                decreases ps@.len() - i,
            {
                if crate::text::str_eq(ps[i].0.as_str(), key) {
                    proof {
                        assert(pv[i as int] == (ps@[i as int].0@, jview(ps@[i as int].1)));
                        lemma_idx_is_first(pv, key@, i as int);
                        assert(get_field(jview(*record), key@) == Some(pv[i as int].1));
                    }
                    return Some(&ps[i].1);
                }
                i = i + 1;
            }
            proof {
                lemma_idx_none(pv, key@);
            }
            None
        },
        _ => None,
    }
}

/// The provider name a record carries under `Provider`/`@Name`, if any.
pub open spec fn provider_of(j: JsonV) -> Option<Seq<char>> {
    match get_field(j, "Provider"@) {
        Some(p) => match get_field(p, "@Name"@) {
            Some(JsonV::Text(s)) => Some(s),
            _ => None,
        },
        None => None,
    }
}

/// Reads the provider name out of a record, if it carries one.
pub fn provider_name(record: &Json) -> (r: Option<String>)
    ensures
        opt_str_v(r) == provider_of(jview(*record)),
{
    match obj_get(record, "Provider") {
        Some(p) => match obj_get(p, "@Name") {
            Some(v) => match v {
                Json::Text(s) => Some(s.clone()),
                _ => None,
            },
            None => None,
        },
        None => None,
    }
}

/// The formatted texts the system offered for the four coded fields of
/// one event; absent where formatting failed or yielded nothing.
pub struct FieldTexts {
    pub keywords: Option<String>,
    pub level: Option<String>,
    pub task: Option<String>,
    pub opcode: Option<String>,
}

/// The view of the offered texts.
pub struct TextsV {
    pub keywords: Option<Seq<char>>,
    pub level: Option<Seq<char>>,
    pub task: Option<Seq<char>>,
    pub opcode: Option<Seq<char>>,
}

pub open spec fn texts_view(t: FieldTexts) -> TextsV {
    TextsV {
        keywords: opt_str_v(t.keywords),
        level: opt_str_v(t.level),
        task: opt_str_v(t.task),
        opcode: opt_str_v(t.opcode),
    }
}

/// What one field holds after enrichment: one of the four coded fields
/// becomes its offered text; every other field keeps its value.
pub open spec fn enriched_field(k: Seq<char>, v: JsonV, t: TextsV) -> JsonV {
    if k == "Keywords"@ && t.keywords is Some {
        JsonV::Text(t.keywords->0)
    } else if k == "Level"@ && t.level is Some {
        JsonV::Text(t.level->0)
    } else if k == "Task"@ && t.task is Some {
        JsonV::Text(t.task->0)
    } else if k == "Opcode"@ && t.opcode is Some {
        JsonV::Text(t.opcode->0)
    } else {
        v
    }
}

/// A record after enrichment of its coded fields: field names and order
/// unchanged, values replaced per `enriched_field`; a non-object record
/// is left as it is.
pub open spec fn enrich_v(j: JsonV, t: TextsV) -> JsonV {
    match j {
        JsonV::Obj(ps) => JsonV::Obj(
            Seq::new(
                ps.len(),
                |i: int|
                    if 0 <= i < ps.len() {
                        (ps[i].0, enriched_field(ps[i].0, ps[i].1, t))
                    } else {
                        (Seq::empty(), null_v())
                    },
            ),
        ),
        _ => j,
    }
}

/// Replaces the coded fields `Keywords`, `Level`, `Task` and `Opcode` of
/// a record with the offered texts, where the field is present and a text
/// was offered; nothing else changes.
pub fn enrich_metadata(record: Json, texts: &FieldTexts) -> (r: Json)
    ensures
        jview(r) == enrich_v(jview(record), texts_view(*texts)),
{
    let ghost orig = record;
    match record {
        Json::Obj(ps) => {
            let ghost ops = ps@;
            let mut ps = ps;
            let mut i: usize = 0;
            while i < ps.len()
                invariant
                    i <= ps@.len(),
                    ps@.len() == ops.len(),
                    forall|j: int| i <= j < ops.len() ==> ps@[j] == ops[j],
                    forall|j: int|
                        0 <= j < i ==> #[trigger] pairs_view(ps@)[j] == (
                        pairs_view(ops)[j].0,
                        enriched_field(
                            pairs_view(ops)[j].0,
                            pairs_view(ops)[j].1,
                            texts_view(*texts),
                        ),
                        ),
                decreases ps@.len() - i,
            {
                let mut newv: Option<String> = None;
                if crate::text::str_eq(ps[i].0.as_str(), "Keywords") {
                    if let Some(s) = &texts.keywords {
                        newv = Some(s.clone());
                    }
                } else if crate::text::str_eq(ps[i].0.as_str(), "Level") {
                    if let Some(s) = &texts.level {
                        newv = Some(s.clone());
                    }
                } else if crate::text::str_eq(ps[i].0.as_str(), "Task") {
                    if let Some(s) = &texts.task {
                        newv = Some(s.clone());
                    }
                } else if crate::text::str_eq(ps[i].0.as_str(), "Opcode") {
                    if let Some(s) = &texts.opcode {
                        newv = Some(s.clone());
                    }
                }
                let ghost prev = ps@;
                let ghost tv = texts_view(*texts);
                match newv {
                    Some(s) => {
                        let ghost gs = s@;
                        let k2 = ps[i].0.clone();
                        ps.set(i, (k2, Json::Text(s)));
                        proof {
                            assert(ps@[i as int].0@ == ops[i as int].0@);
                            assert(jview(ps@[i as int].1) == JsonV::Text(gs));
                            assert(pairs_view(ops)[i as int] == (ops[i as int].0@, jview(
                                ops[i as int].1,
                            )));
                            assert(enriched_field(
                                pairs_view(ops)[i as int].0,
                                pairs_view(ops)[i as int].1,
                                tv,
                            ) == JsonV::Text(gs));
                        }
                    },
                    None => {
                        proof {
                            reveal_strlit("Keywords");
                            reveal_strlit("Level");
                            reveal_strlit("Task");
                            reveal_strlit("Opcode");
                            assert("Keywords"@.len() == 8);
                            assert("Level"@.len() == 5);
                            assert("Task"@.len() == 4);
                            assert("Opcode"@.len() == 6);
                            assert(ps@[i as int] == ops[i as int]);
                            assert(pairs_view(ops)[i as int] == (ops[i as int].0@, jview(
                                ops[i as int].1,
                            )));
                            assert(enriched_field(
                                pairs_view(ops)[i as int].0,
                                pairs_view(ops)[i as int].1,
                                tv,
                            ) == pairs_view(ops)[i as int].1);
                        }
                    },
                }
                proof {
                    assert forall|j: int| 0 <= j < i + 1 implies #[trigger] pairs_view(ps@)[j]
                        == (
                    pairs_view(ops)[j].0,
                    enriched_field(
                        pairs_view(ops)[j].0,
                        pairs_view(ops)[j].1,
                        texts_view(*texts),
                    ),
                    ) by {
                        if j < i {
                            assert(ps@[j] == prev[j]);
                            assert(pairs_view(prev)[j] == (
                            pairs_view(ops)[j].0,
                            enriched_field(
                                pairs_view(ops)[j].0,
                                pairs_view(ops)[j].1,
                                texts_view(*texts),
                            ),
                            ));
                        } else {
                            assert(pairs_view(ops)[j] == (ops[j].0@, jview(ops[j].1)));
                        }
                    }
                }
                i = i + 1;
            }
            let r = Json::Obj(ps);
            proof {
                let tv = texts_view(*texts);
                let pv = pairs_view(ops);
                assert(jview(orig) == JsonV::Obj(pv));
                assert(pairs_view(ps@) =~= Seq::new(
                    pv.len(),
                    |i: int|
                        if 0 <= i < pv.len() {
                            (pv[i].0, enriched_field(pv[i].0, pv[i].1, tv))
                        } else {
                            (Seq::empty(), null_v())
                        },
                ));
            }
            r
        },
        Json::Arr(vs) => Json::Arr(vs),
        Json::Text(s) => Json::Text(s),
    }
}


proof fn lemma_idx_is_first(ps: Seq<(Seq<char>, JsonV)>, k: Seq<char>, i: int)
    requires
        0 <= i < ps.len(),
        ps[i].0 == k,
        forall|j: int| 0 <= j < i ==> ps[j].0 != k,
    ensures
        idx_of_key(ps, k) == i,
{
    lemma_idx_of_key(ps, k);
}

proof fn lemma_idx_none(ps: Seq<(Seq<char>, JsonV)>, k: Seq<char>)
    requires
        forall|j: int| 0 <= j < ps.len() ==> ps[j].0 != k,
    ensures
        idx_of_key(ps, k) < 0,
{
    lemma_idx_of_key(ps, k);
}

/// A field list with the field named `k` set to `v`: replaced in place at
/// its first occurrence when present, appended otherwise.
pub open spec fn upsert_v(ps: Seq<(Seq<char>, JsonV)>, k: Seq<char>, v: JsonV) -> Seq<
    (Seq<char>, JsonV),
> {
    if idx_of_key(ps, k) >= 0 {
        ps.update(idx_of_key(ps, k), (k, v))
    } else {
        ps.push((k, v))
    }
}

/// An object record with a `Message` field holding the offered text; a
/// record that is no object, or no offered text, leaves it unchanged.
pub open spec fn with_message(j: JsonV, m: Option<Seq<char>>) -> JsonV {
    match j {
        JsonV::Obj(ps) => match m {
            Some(s) => JsonV::Obj(upsert_v(ps, "Message"@, JsonV::Text(s))),
            None => j,
        },
        _ => j,
    }
}

/// Finds the first field named `key`, if any.
fn find_key(ps: &Vec<(String, Json)>, key: &str) -> (r: Option<usize>)
    ensures
        match r {
            Some(i) => idx_of_key(pairs_view(ps@), key@) == i as int && i < ps@.len(),
            None => idx_of_key(pairs_view(ps@), key@) < 0,
        },
{
    let ghost pv = pairs_view(ps@);
    let mut i: usize = 0;
    while i < ps.len()
        invariant
            i <= ps@.len(),
            pv == pairs_view(ps@),
            forall|j: int| 0 <= j < i ==> pv[j].0 != key@,
        decreases ps@.len() - i,
    {
        if crate::text::str_eq(ps[i].0.as_str(), key) {
            proof {
                assert(pv[i as int] == (ps@[i as int].0@, jview(ps@[i as int].1)));
                lemma_idx_is_first(pv, key@, i as int);
            }
            return Some(i);
        }
        i = i + 1;
    }
    proof {
        lemma_idx_none(pv, key@);
    }
    None
}

/// Attaches the provider-supplied human message to a record, under the
/// top-level `Message` field.
pub fn add_message(record: Json, message: &String) -> (r: Json)
    ensures
        jview(r) == with_message(jview(record), Some(message@)),
{
    match record {
        Json::Obj(ps) => {
            let mut ps = ps;
            let ghost ops = ps@;
            let ghost pv = pairs_view(ops);
            match find_key(&ps, "Message") {
                Some(i) => {
                    let k2 = ps[i].0.clone();
                    ps.set(i, (k2, Json::Text(message.clone())));
                    proof {
                        lemma_idx_of_key(pv, "Message"@);
                        assert forall|j: int| 0 <= j < ops.len() implies pairs_view(ps@)[j]
                            == upsert_v(pv, "Message"@, JsonV::Text(message@))[j] by {
                            if j != i {
                                assert(ps@[j] == ops[j]);
                                assert(pairs_view(ps@)[j] == (ops[j].0@, jview(ops[j].1)));
                            } else {
                                assert(pairs_view(ps@)[j] == (ps@[j].0@, jview(ps@[j].1)));
                            }
                        }
                        assert(pairs_view(ps@) =~= upsert_v(pv, "Message"@, JsonV::Text(message@)));
                    }
                    return Json::Obj(ps);
                },
                None => {},
            }
            ps.push((String::from_str("Message"), Json::Text(message.clone())));
            proof {
                assert forall|j: int| 0 <= j < ops.len() + 1 implies pairs_view(ps@)[j]
                    == upsert_v(pv, "Message"@, JsonV::Text(message@))[j] by {
                    if j < ops.len() {
                        assert(ps@[j] == ops[j]);
                        assert(pairs_view(ps@)[j] == (ops[j].0@, jview(ops[j].1)));
                    } else {
                        assert(pairs_view(ps@)[j] == (ps@[j].0@, jview(ps@[j].1)));
                    }
                }
                assert(pairs_view(ps@) =~= upsert_v(pv, "Message"@, JsonV::Text(message@)));
            }
            Json::Obj(ps)
        },
        Json::Arr(vs) => Json::Arr(vs),
        Json::Text(s) => Json::Text(s),
    }
}

/// Enrichment only ever touches the five named fields: any field of an
/// object record named otherwise reads the same before and after the
/// coded fields are replaced and the message is attached.
pub proof fn lemma_enrichment_touches_only_named_fields(
    j: JsonV,
    t: TextsV,
    m: Option<Seq<char>>,
    k: Seq<char>,
)
    requires
        k != "Keywords"@,
        k != "Level"@,
        k != "Task"@,
        k != "Opcode"@,
        k != "Message"@,
    ensures
        get_field(with_message(enrich_v(j, t), m), k) == get_field(j, k),
{
    match j {
        JsonV::Obj(ps) => {
            let ej = enrich_v(j, t);
            let eps = ej->Obj_0;
            assert(eps.len() == ps.len());
            assert(forall|x: int| 0 <= x < ps.len() ==> eps[x].0 == ps[x].0);
            lemma_idx_of_key_same_names(eps, ps, k);
            lemma_idx_of_key(ps, k);
            if idx_of_key(ps, k) >= 0 {
                let ik = idx_of_key(ps, k);
                assert(eps[ik].1 == enriched_field(ps[ik].0, ps[ik].1, t));
                assert(eps[ik].1 == ps[ik].1);
            }
            match m {
                Some(s) => {
                    let ups = upsert_v(eps, "Message"@, JsonV::Text(s));
                    lemma_idx_of_key(eps, "Message"@);
                    if idx_of_key(eps, "Message"@) >= 0 {
                        let im = idx_of_key(eps, "Message"@);
                        assert(eps[im].0 == "Message"@);
                        assert(ups.len() == eps.len());
                        assert(forall|x: int| 0 <= x < eps.len() ==> ups[x].0 == eps[x].0);
                        lemma_idx_of_key_same_names(ups, eps, k);
                        lemma_idx_of_key(eps, k);
                        if idx_of_key(eps, k) >= 0 {
                            assert(eps[idx_of_key(eps, k)].0 == k);
                            assert(idx_of_key(eps, k) != im);
                            assert(ups[idx_of_key(eps, k)].1 == eps[idx_of_key(eps, k)].1);
                        }
                    } else {
                        lemma_idx_of_key(eps, k);
                        if idx_of_key(eps, k) >= 0 {
                            let ik = idx_of_key(eps, k);
                            assert(forall|x: int| 0 <= x < eps.len() ==> ups[x] == eps[x]);
                            lemma_idx_is_first(ups, k, ik);
                        } else {
                            assert(forall|x: int|
                                0 <= x < ups.len() ==> ups[x].0 != k && ups[x].0 == (if x
                                    < eps.len() {
                                    eps[x].0
                                } else {
                                    "Message"@
                                }));
                            lemma_idx_none(ups, k);
                        }
                    }
                },
                None => {},
            }
        },
        _ => {},
    }
}

} // verus!
