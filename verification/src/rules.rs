//! The configuration model: a JSON array of objects, each with a
//! `dirname` string and an `extensions` array of strings, read into a
//! sequence of [`SubdirRule`]s — and written back out.

use vstd::prelude::*;

use crate::ConfigError;
use crate::json::Json;
use crate::json::json_of;

verus! {

/// One configured subdirectory: a target directory name and the file
/// extensions routed to it.  Extensions are stored as written in the
/// configuration; matching folds the file's extension to lowercase, so
/// only lowercase entries ever match.
#[derive(Debug, PartialEq, Eq)]
pub struct SubdirRule {
    pub dirname: String,
    pub extensions: Vec<String>,
}

/// Mathematical model of a [`SubdirRule`].
pub struct RuleModel {
    pub dirname: Seq<char>,
    pub extensions: Seq<Seq<char>>,
}

impl View for SubdirRule {
    type V = RuleModel;

    open spec fn view(&self) -> RuleModel {
        RuleModel { dirname: self.dirname@, extensions: self.extensions.deep_view() }
    }
}

impl DeepView for SubdirRule {
    type V = RuleModel;

    open spec fn deep_view(&self) -> RuleModel {
        self.view()
    }
}

impl SubdirRule {
    pub fn new(dirname: String, extensions: Vec<String>) -> (r: SubdirRule)
        ensures
            r.dirname == dirname,
            r.extensions == extensions,
    {
        SubdirRule { dirname, extensions }
    }
}

/// The value of the first field named `key`, if any.
pub open spec fn lookup_field(fields: Seq<(String, Json)>, key: Seq<char>) -> Option<Json>
    decreases fields.len(),
{
    if fields.len() == 0 {
        None
    } else if fields[0].0@ == key {
        Some(fields[0].1)
    } else {
        lookup_field(fields.drop_first(), key)
    }
}

/// Whether every element is a JSON string.
pub open spec fn all_strings(elems: Seq<Json>) -> bool {
    forall|i: int| 0 <= i < elems.len() ==> elems[i] is Str
}

/// The character sequences of a sequence of JSON strings.
pub open spec fn string_views(elems: Seq<Json>) -> Seq<Seq<char>> {
    Seq::new(elems.len(), |i: int| elems[i]->Str_0@)
}

/// The rule an object's fields describe: a string `dirname` and an
/// `extensions` array of strings; `None` when either is missing or of
/// the wrong shape.
pub open spec fn rule_of_fields(fields: Seq<(String, Json)>) -> Option<RuleModel> {
    match (lookup_field(fields, "dirname"@), lookup_field(fields, "extensions"@)) {
        (Some(Json::Str(dn)), Some(Json::Array(exts))) => {
            if all_strings(exts@) {
                Some(RuleModel { dirname: dn@, extensions: string_views(exts@) })
            } else {
                None
            }
        },
        _ => None,
    }
}

/// The rule a JSON value describes, if it is an object of the
/// configured shape.
pub open spec fn rule_of_json(j: Json) -> Option<RuleModel> {
    match j {
        Json::Object(fields) => rule_of_fields(fields@),
        _ => None,
    }
}

/// The rules a JSON document describes: `None` unless the top level is
/// an array whose every element describes a rule.
pub open spec fn rules_of_doc(doc: Json) -> Option<Seq<RuleModel>> {
    match doc {
        Json::Array(elems) => {
            if forall|i: int| 0 <= i < elems@.len() ==> rule_of_json(#[trigger] elems@[i]) is Some {
                Some(Seq::new(elems@.len(), |i: int| rule_of_json(elems@[i])->Some_0))
            } else {
                None
            }
        },
        _ => None,
    }
}

/// A document whose every element describes the matching model
/// describes exactly that rule sequence.
proof fn lemma_rules_of_doc_pointwise(doc: Json, models: Seq<RuleModel>)
    requires
        doc is Array,
        doc->Array_0@.len() == models.len(),
        forall|k: int| 0 <= k < models.len()
            ==> rule_of_json(#[trigger] doc->Array_0@[k]) == Some(models[k]),
    ensures
        rules_of_doc(doc) == Some(models),
{
    let elems = doc->Array_0;
    assert(forall|i: int| 0 <= i < elems@.len() ==> rule_of_json(#[trigger] elems@[i]) is Some);
    assert(Seq::new(elems@.len(), |i: int| rule_of_json(elems@[i])->Some_0) =~= models);
}

/// What loading the given configuration text yields: the rules of its
/// JSON document, in source order; `ConfigError::Malformed` when the
/// text is not valid JSON, its top level is not an array, or some
/// element does not describe a rule.
pub open spec fn parse_config_spec(text: Seq<char>) -> Result<Seq<RuleModel>, ConfigError> {
    match json_of(text) {
        Some(doc) => match rules_of_doc(doc) {
            Some(rs) => Ok(rs),
            None => Err(ConfigError::Malformed),
        },
        None => Err(ConfigError::Malformed),
    }
}

/// Finds the first field of this name, as [`lookup_field`] says.
fn lookup_field_exec<'a>(fields: &'a Vec<(String, Json)>, key: &String) -> (r: Option<&'a Json>)
    ensures
        match r {
            Some(j) => lookup_field(fields@, key@) == Some(*j),
            None => lookup_field(fields@, key@) is None,
        },
{
    proof {
        assert(fields@.skip(0) =~= fields@);
    }
    let mut i: usize = 0;
    while i < fields.len()
        invariant
            0 <= i <= fields@.len(),
            lookup_field(fields@, key@) == lookup_field(fields@.skip(i as int), key@),
        decreases fields@.len() - i,
    {
        proof {
            assert(fields@.skip(i as int)[0] == fields@[i as int]);
            assert(fields@.skip(i as int).drop_first() =~= fields@.skip(i as int + 1));
        }
        if fields[i].0 == *key {
            return Some(&fields[i].1);
        }
        i = i + 1;
    }
    proof {
        assert(fields@.skip(fields@.len() as int).len() == 0);
    }
    None
}

/// Reads one rule out of a JSON value, as [`rule_of_json`] says.
#[verifier::loop_isolation(false)]
pub fn rule_from_json(j: &Json) -> (r: Option<SubdirRule>)
    ensures
        match r {
            Some(rule) => rule_of_json(*j) == Some(rule@),
            None => rule_of_json(*j) is None,
        },
{
    let fields_opt = j.as_object();
    if fields_opt.is_none() {
        return None;
    }
    let fields = fields_opt.unwrap();
    let dkey = String::from_str("dirname");
    let ekey = String::from_str("extensions");
    let dval_opt = lookup_field_exec(fields, &dkey);
    if dval_opt.is_none() {
        return None;
    }
    let dname_opt = dval_opt.unwrap().as_str();
    if dname_opt.is_none() {
        return None;
    }
    let dirname = dname_opt.unwrap().clone();
    let eval_opt = lookup_field_exec(fields, &ekey);
    if eval_opt.is_none() {
        return None;
    }
    let exts_opt = eval_opt.unwrap().as_array();
    if exts_opt.is_none() {
        return None;
    }
    let exts = exts_opt.unwrap();
    let mut extensions: Vec<String> = Vec::new();
    let mut i: usize = 0;
    while i < exts.len()
        invariant
            0 <= i <= exts@.len(),
            extensions@.len() == i as int,
            forall|k: int| 0 <= k < i ==> (#[trigger] exts@[k]) is Str,
            forall|k: int| 0 <= k < i ==> (#[trigger] extensions@[k])@ == exts@[k]->Str_0@,
        decreases exts@.len() - i,
    {
        match &exts[i] {
            Json::Str(s) => {
                extensions.push(s.clone());
            },
            _ => {
                proof {
                    assert(!all_strings(exts@));
                }
                return None;
            },
        }
        i = i + 1;
    }
    let rule = SubdirRule { dirname, extensions };
    proof {
        assert forall|k: int| 0 <= k < rule.extensions@.len() implies
            rule.extensions.deep_view()[k] == (#[trigger] rule.extensions@[k])@ by {}
        assert(string_views(exts@) =~= rule@.extensions);
    }
    Some(rule)
}

/// Reads the whole rule sequence out of a JSON document, as
/// [`rules_of_doc`] says; `ConfigError::Malformed` when the document
/// does not have the configured shape.
#[verifier::loop_isolation(false)]
pub fn rules_from_json(doc: &Json) -> (r: Result<Vec<SubdirRule>, ConfigError>)
    ensures
        match r {
            Ok(rs) => rules_of_doc(*doc) == Some(rs.deep_view()),
            Err(e) => rules_of_doc(*doc) is None && e == ConfigError::Malformed,
        },
{
    let elems_opt = doc.as_array();
    if elems_opt.is_none() {
        return Err(ConfigError::Malformed);
    }
    let elems = elems_opt.unwrap();
    let mut rules: Vec<SubdirRule> = Vec::new();
    let mut i: usize = 0;
    while i < elems.len()
        invariant
            0 <= i <= elems@.len(),
            rules@.len() == i as int,
            forall|k: int| 0 <= k < i ==> rule_of_json(#[trigger] elems@[k]) is Some,
            forall|k: int| 0 <= k < i
                ==> rule_of_json(elems@[k])->Some_0 == (#[trigger] rules@[k])@,
        decreases elems@.len() - i,
    {
        match rule_from_json(&elems[i]) {
            Some(rule) => {
                rules.push(rule);
            },
            None => {
                proof {
                    assert(doc->Array_0@ == elems@);
                    assert(rule_of_json(doc->Array_0@[i as int]) is None);
                }
                return Err(ConfigError::Malformed);
            },
        }
        i = i + 1;
    }
    proof {
        assert forall|k: int| 0 <= k < rules@.len() implies
            rules.deep_view()[k] == (#[trigger] rules@[k])@ by {}
        lemma_rules_of_doc_pointwise(*doc, rules.deep_view());
    }
    Ok(rules)
}

/// Writes one rule as a JSON object of the configured shape.  Reading
/// it back yields this rule again.
pub fn rule_to_json(rule: &SubdirRule) -> (j: Json)
    ensures
        rule_of_json(j) == Some(rule@),
{
    let mut exts: Vec<Json> = Vec::new();
    let mut i: usize = 0;
    while i < rule.extensions.len()
        invariant
            0 <= i <= rule.extensions@.len(),
            exts@.len() == i as int,
            forall|k: int| 0 <= k < i ==> (#[trigger] exts@[k]) is Str,
            forall|k: int| 0 <= k < i
                ==> exts@[k]->Str_0@ == (#[trigger] rule.extensions@[k])@,
        decreases rule.extensions@.len() - i,
    {
        exts.push(Json::Str(rule.extensions[i].clone()));
        i = i + 1;
    }
    let mut fields: Vec<(String, Json)> = Vec::new();
    fields.push((String::from_str("dirname"), Json::Str(rule.dirname.clone())));
    fields.push((String::from_str("extensions"), Json::Array(exts)));
    let ghost gfields = fields@;
    let j = Json::Object(fields);
    proof {
        reveal_strlit("dirname");
        reveal_strlit("extensions");
        assert("dirname"@.len() == 7);
        assert("extensions"@.len() == 10);
        assert(gfields.len() == 2);
        assert(gfields[0].0@ == "dirname"@);
        assert(gfields[1].0@ == "extensions"@);
        assert(lookup_field(gfields, "dirname"@) == Some(gfields[0].1));
        let tail = gfields.drop_first();
        assert(tail[0] == gfields[1]);
        assert(tail.len() == 1);
        assert(lookup_field(tail, "extensions"@) == Some(gfields[1].1));
        assert(lookup_field(gfields, "extensions"@) == lookup_field(tail, "extensions"@));
        assert forall|k: int| 0 <= k < rule.extensions@.len() implies
            rule.extensions.deep_view()[k] == (#[trigger] rule.extensions@[k])@ by {}
        assert(string_views(gfields[1].1->Array_0@) =~= rule@.extensions);
    }
    j
}

/// Writes a rule sequence as a configuration document: a JSON array of
/// one object per rule, in order.  The `ensures` clause is the
/// round-trip law: reading the written document back yields an
/// equivalent rule sequence — same order, same extension lists, the
/// case of every string preserved.
pub fn rules_to_json(rules: &Vec<SubdirRule>) -> (doc: Json)
    ensures
        rules_of_doc(doc) == Some(rules.deep_view()),
{
    let mut elems: Vec<Json> = Vec::new();
    let mut i: usize = 0;
    while i < rules.len()
        invariant
            0 <= i <= rules@.len(),
            elems@.len() == i as int,
            forall|k: int| 0 <= k < i
                ==> rule_of_json(#[trigger] elems@[k]) == Some((#[trigger] rules@[k])@),
        decreases rules@.len() - i,
    {
        let elem = rule_to_json(&rules[i]);
        elems.push(elem);
        i = i + 1;
    }
    let ghost gelems = elems@;
    let doc = Json::Array(elems);
    proof {
        assert forall|k: int| 0 <= k < rules@.len() implies
            rules.deep_view()[k] == (#[trigger] rules@[k])@ by {}
        assert(doc->Array_0@ == gelems);
        lemma_rules_of_doc_pointwise(doc, rules.deep_view());
    }
    doc
}

} // verus!

