//! A simple expansion of JSON-LD documents against a fixed context.

use crate::options::pairs_model;
use crate::text::{
    chars_of, find_char, first_index_of, has_prefix, lemma_first_index_of, push_chars, slice_chars,
    starts_with, string_of,
};
use crate::triples::{is_iri_text, is_keyword, key_is_keyword, xsd_boolean, xsd_double, xsd_integer};
use crate::value::{
    array_model, entries_model, find_key, insert_entry, key_index, lookup, obj_get, obj_insert,
    same_text, Entries, Json, Number, Value,
};
use vstd::prelude::*;

verus! {

/// What a term says of the language of its strings.
#[derive(Debug)]
pub enum LanguageMapping {
    /// The strings are in this language.
    Language(String),
    /// The strings have no language.
    NoLanguage,
}

/// The model of what a term says of the language of its strings.
pub enum LanguageModel {
    Language(Seq<char>),
    NoLanguage,
}

/// The definition of a term of a context.
#[derive(Debug)]
pub struct TermDefinition {
    pub iri: Option<String>,
    pub language_mapping: Option<LanguageMapping>,
}

/// A context: the prefixes with their namespaces, the default vocabulary,
/// the default language, and the definitions of the terms.
#[derive(Debug)]
pub struct Context {
    pub prefixes: Vec<(String, String)>,
    pub vocab: String,
    pub base: Option<String>,
    pub language: Option<String>,
    pub version: Option<String>,
    pub terms: Vec<(String, TermDefinition)>,
}

/// The model of a context: what the expansion reads of it.
pub struct ContextModel {
    pub prefixes: Seq<(Seq<char>, Seq<char>)>,
    pub vocab: Seq<char>,
    pub language: Option<Seq<char>>,
    pub terms: Seq<(Seq<char>, Option<LanguageModel>)>,
}

/// The model of what a term says of the language.
pub open spec fn language_model(m: Option<LanguageMapping>) -> Option<LanguageModel> {
    match m {
        Some(LanguageMapping::Language(l)) => Some(LanguageModel::Language(l@)),
        Some(LanguageMapping::NoLanguage) => Some(LanguageModel::NoLanguage),
        None => None,
    }
}

/// The models of the terms of a context.
pub open spec fn terms_model(terms: Seq<(String, TermDefinition)>) -> Seq<
    (Seq<char>, Option<LanguageModel>),
> {
    Seq::new(terms.len(), |i: int| (terms[i].0@, language_model(terms[i].1.language_mapping)))
}

impl View for Context {
    type V = ContextModel;

    open spec fn view(&self) -> ContextModel {
        ContextModel {
            prefixes: pairs_model(self.prefixes@),
            vocab: self.vocab@,
            language: match self.language {
                Some(l) => Some(l@),
                None => None,
            },
            terms: terms_model(self.terms@),
        }
    }
}

/// The options of an expansion: the property under which the element
/// stands, and the graph.
#[derive(Debug)]
pub struct ExpandOptions {
    pub active_property: Option<String>,
    pub active_graph: String,
}

/// The model of the property under which an element stands.
pub open spec fn active_model(o: &ExpandOptions) -> Option<Seq<char>> {
    match o.active_property {
        Some(p) => Some(p@),
        None => None,
    }
}

impl Default for ExpandOptions {
    fn default() -> (r: ExpandOptions)
        ensures
            active_model(&r) is None,
    {
        ExpandOptions { active_property: None, active_graph: String::new() }
    }
}

/// The prefixes of the default context.
pub open spec fn default_prefixes() -> Seq<(Seq<char>, Seq<char>)> {
    seq![
        ("rdf"@, "http://www.w3.org/1999/02/22-rdf-syntax-ns#"@),
        ("rdfs"@, "http://www.w3.org/2000/01/rdf-schema#"@),
        ("xsd"@, "http://www.w3.org/2001/XMLSchema#"@),
        ("schema"@, "http://schema.org/"@),
    ]
}

/// The model of the default context: four prefixes, the vocabulary
/// `http://example.org/`, no language and no terms.
pub open spec fn default_context_model() -> ContextModel {
    ContextModel {
        prefixes: default_prefixes(),
        vocab: "http://example.org/"@,
        language: None,
        terms: Seq::empty(),
    }
}

/// The default context.
pub fn default_context() -> (r: Context)
    ensures
        r@ == default_context_model(),
{
    let prefixes = vec![
        ("rdf".to_string(), "http://www.w3.org/1999/02/22-rdf-syntax-ns#".to_string()),
        ("rdfs".to_string(), "http://www.w3.org/2000/01/rdf-schema#".to_string()),
        ("xsd".to_string(), "http://www.w3.org/2001/XMLSchema#".to_string()),
        ("schema".to_string(), "http://schema.org/".to_string()),
    ];
    assert(pairs_model(prefixes@) =~= default_prefixes());
    let terms: Vec<(String, TermDefinition)> = Vec::new();
    assert(terms_model(terms@) =~= Seq::empty());
    Context {
        prefixes,
        vocab: "http://example.org/".to_string(),
        base: None,
        language: None,
        version: Some("1.1".to_string()),
        terms,
    }
}

/// The text that the first pair at or after `from` with the given key
/// holds.
pub open spec fn pair_lookup_from(pairs: Seq<(Seq<char>, Seq<char>)>, key: Seq<char>, from: int) -> Option<
    Seq<char>,
>
    decreases pairs.len() - from,
{
    if from < 0 || from >= pairs.len() {
        None
    } else if pairs[from].0 == key {
        Some(pairs[from].1)
    } else {
        pair_lookup_from(pairs, key, from + 1)
    }
}

/// The namespace of a prefix.
pub open spec fn pair_lookup(pairs: Seq<(Seq<char>, Seq<char>)>, key: Seq<char>) -> Option<Seq<char>> {
    pair_lookup_from(pairs, key, 0)
}

/// The namespace of a prefix.
pub fn find_prefix<'a>(prefixes: &'a Vec<(String, String)>, key: &str) -> (r: Option<&'a String>)
    ensures
        match r {
            Some(s) => pair_lookup(pairs_model(prefixes@), key@) == Some(s@),
            None => pair_lookup(pairs_model(prefixes@), key@) is None,
        },
{
    let ghost model = pairs_model(prefixes@);
    let mut i: usize = 0;
    while i < prefixes.len()
        invariant
            i <= prefixes.len(),
            model == pairs_model(prefixes@),
            pair_lookup(model, key@) == pair_lookup_from(model, key@, i as int),
        decreases prefixes.len() - i,
    {
        if same_text(prefixes[i].0.as_str(), key) {
            return Some(&prefixes[i].1);
        }
        i += 1;
    }
    None
}

/// What the first term at or after `from` with the given name says of the
/// language.
pub open spec fn term_language_from(
    terms: Seq<(Seq<char>, Option<LanguageModel>)>,
    name: Seq<char>,
    from: int,
) -> Option<LanguageModel>
    decreases terms.len() - from,
{
    if from < 0 || from >= terms.len() {
        None
    } else if terms[from].0 == name {
        terms[from].1
    } else {
        term_language_from(terms, name, from + 1)
    }
}

/// What the terms say of the language of a property.
pub open spec fn term_language(terms: Seq<(Seq<char>, Option<LanguageModel>)>, name: Seq<char>) -> Option<
    LanguageModel,
> {
    term_language_from(terms, name, 0)
}

/// What the terms say of the language of a property.
pub fn find_term_language<'a>(terms: &'a Vec<(String, TermDefinition)>, name: &str) -> (r: Option<
    &'a LanguageMapping,
>)
    ensures
        match r {
            Some(m) => term_language(terms_model(terms@), name@) == language_model(Some(*m)),
            None => term_language(terms_model(terms@), name@) is None,
        },
{
    let ghost model = terms_model(terms@);
    let mut i: usize = 0;
    while i < terms.len()
        invariant
            i <= terms.len(),
            model == terms_model(terms@),
            term_language(model, name@) == term_language_from(model, name@, i as int),
        decreases terms.len() - i,
    {
        if same_text(terms[i].0.as_str(), name) {
            return match &terms[i].1.language_mapping {
                Some(m) => Some(m),
                None => None,
            };
        }
        i += 1;
    }
    None
}

/// The expanded form of an IRI. An absolute IRI stands for itself, a text
/// that is a prefix for its namespace, `prefix:local` for the namespace of
/// the prefix followed by the local part, or for itself where the prefix
/// is not known; a text without a colon stands in the vocabulary.
pub open spec fn expanded_iri(iri: Seq<char>, ctx: ContextModel) -> Seq<char> {
    if is_iri_text(iri) {
        iri
    } else {
        match pair_lookup(ctx.prefixes, iri) {
            Some(whole) => whole,
            None => if iri.contains(':') {
                let at = first_index_of(iri, ':');
                match pair_lookup(ctx.prefixes, iri.subrange(0, at)) {
                    Some(namespace) => namespace + iri.subrange(at + 1, iri.len() as int),
                    None => iri,
                }
            } else {
                ctx.vocab + iri
            },
        }
    }
}

/// The position of the first colon of a text, where it has one.
pub fn colon_position(p: &Vec<char>) -> (r: Option<usize>)
    ensures
        match r {
            Some(at) => p@.contains(':') && at == first_index_of(p@, ':') && at < p.len(),
            None => !p@.contains(':'),
        },
{
    let at = find_char(p, ':');
    proof {
        lemma_first_index_of(p@, ':');
        if at < p.len() {
            assert(p@.contains(':'));
        } else {
            if p@.contains(':') {
                let k = choose|k: int| 0 <= k < p@.len() && p@[k] == ':';
                assert(false);
            }
        }
    }
    if at < p.len() {
        Some(at)
    } else {
        None
    }
}

/// The expanded form of the IRI of a property.
pub fn expand_property_iri(prop: &str, context: &Context) -> (r: String)
    ensures
        r@ == expanded_iri(prop@, context@),
{
    let p = chars_of(prop);
    if starts_with(&p, "http://") || starts_with(&p, "https://") {
        return string_of(&p);
    }
    match find_prefix(&context.prefixes, prop) {
        Some(whole) => {
            return whole.clone();
        },
        None => {},
    }
    match colon_position(&p) {
        Some(at) => {
            let prefix = string_of(&slice_chars(&p, 0, at));
            let local = slice_chars(&p, at + 1, p.len());
            match find_prefix(&context.prefixes, prefix.as_str()) {
                Some(namespace) => {
                    let mut out = chars_of(namespace.as_str());
                    push_chars(&mut out, &local);
                    string_of(&out)
                },
                None => string_of(&p),
            }
        },
        None => {
            let mut out = chars_of(context.vocab.as_str());
            push_chars(&mut out, &p);
            string_of(&out)
        },
    }
}

/// The expanded form of an IRI, as a document.
pub fn expand_iri(iri: &str, context: &Context) -> (r: Value)
    ensures
        r@ == Json::Str(expanded_iri(iri@, context@)),
{
    Value::Str(expand_property_iri(iri, context))
}

/// A value object with a datatype.
pub open spec fn typed_value_object(value: Json, datatype: Seq<char>) -> Json {
    Json::Object(seq![("@type"@, Json::Str(datatype)), ("@value"@, value)])
}

/// A value object with a language.
pub open spec fn language_value_object(value: Seq<char>, language: Seq<char>) -> Json {
    Json::Object(seq![("@language"@, Json::Str(language)), ("@value"@, Json::Str(value))])
}

/// A value object with nothing but its value.
pub open spec fn plain_value_object(value: Seq<char>) -> Json {
    Json::Object(seq![("@value"@, Json::Str(value))])
}

/// A value object with a datatype.
pub fn make_typed_value_object(value: Value, datatype: &str) -> (r: Value)
    ensures
        r@ == typed_value_object(value@, datatype@),
{
    let entries = vec![("@type".to_string(), Value::text(datatype)), ("@value".to_string(), value)];
    assert(entries_model(entries@) =~= seq![
        ("@type"@, Json::Str(datatype@)),
        ("@value"@, value@),
    ]);
    Value::Object(entries)
}

/// A value object with a language.
pub fn make_language_value_object(value: &str, language: &str) -> (r: Value)
    ensures
        r@ == language_value_object(value@, language@),
{
    let entries = vec![
        ("@language".to_string(), Value::text(language)),
        ("@value".to_string(), Value::text(value)),
    ];
    assert(entries_model(entries@) =~= seq![
        ("@language"@, Json::Str(language@)),
        ("@value"@, Json::Str(value@)),
    ]);
    Value::Object(entries)
}

/// A value object with nothing but its value.
pub fn make_plain_value_object(value: &str) -> (r: Value)
    ensures
        r@ == plain_value_object(value@),
{
    let entries = vec![("@value".to_string(), Value::text(value))];
    assert(entries_model(entries@) =~= seq![("@value"@, Json::Str(value@))]);
    Value::Object(entries)
}

/// The expanded form of a number or a boolean: a value object with its
/// datatype under a property, itself at the top.
pub open spec fn expanded_scalar(element: Json, active: Option<Seq<char>>) -> Json {
    if active is None {
        element
    } else {
        match element {
            Json::Bool(_) => typed_value_object(element, xsd_boolean()),
            Json::Number(n) => typed_value_object(
                element,
                if n is Float {
                    xsd_double()
                } else {
                    xsd_integer()
                },
            ),
            _ => element,
        }
    }
}

/// The value object of a string in the default language of the context, or
/// in none.
pub open spec fn default_language_value(s: Seq<char>, ctx: ContextModel) -> Json {
    match ctx.language {
        Some(lang) => language_value_object(s, lang),
        None => plain_value_object(s),
    }
}

/// The expanded form of a string: itself at the top; under `@id` and
/// `@type` its expanded IRI; under any other property a value object, in
/// the language that the term of the property or else the context gives.
pub open spec fn expanded_string(s: Seq<char>, ctx: ContextModel, active: Option<Seq<char>>) -> Json {
    match active {
        None => Json::Str(s),
        Some(prop) => if prop == "@id"@ || prop == "@type"@ {
            Json::Str(expanded_iri(s, ctx))
        } else {
            match term_language(ctx.terms, prop) {
                Some(LanguageModel::Language(lang)) => language_value_object(s, lang),
                Some(LanguageModel::NoLanguage) => plain_value_object(s),
                None => default_language_value(s, ctx),
            }
        },
    }
}

/// The expanded form of one type: of a string its expanded IRI, anything
/// else as it is.
pub open spec fn expanded_type_item(t: Json, ctx: ContextModel) -> Json {
    match t {
        Json::Str(s) => Json::Str(expanded_iri(s, ctx)),
        other => other,
    }
}

/// The expanded form of the value of `@type`: of a string and of the
/// strings of an array their expanded IRIs.
pub open spec fn expanded_type(t: Json, ctx: ContextModel) -> Json {
    match t {
        Json::Array(items) => Json::Array(
            Seq::new(items.len(), |i: int| expanded_type_item(items[i], ctx)),
        ),
        _ => expanded_type_item(t, ctx),
    }
}

/// The lower-case form of a text by the Unicode tables of the standard
/// library.
pub uninterp spec fn lowercased(s: Seq<char>) -> Seq<char>;

/// `str::to_lowercase` of the standard library: the lower-case form of the
/// text. The contract gives the result its name and claims nothing else of
/// it.
#[verifier::external_body]
pub(crate) fn to_lowercase(s: &str) -> (r: String)
    ensures
        r@ == lowercased(s@),
{
    s.to_lowercase()
}

/// The entries with the text under `key` of the object put in, where that
/// is a string.
pub open spec fn with_text_entry(acc: Entries, obj: Entries, key: Seq<char>) -> Entries {
    match lookup(obj, key) {
        Some(Json::Str(s)) => insert_entry(acc, key, Json::Str(s)),
        _ => acc,
    }
}

/// The expanded form of a value object: its value, the expanded IRI of its
/// type, its language in lower case unless it is empty, its direction
/// where that is `ltr` or `rtl`, and its index.
pub open spec fn expanded_value_object(obj: Entries, ctx: ContextModel) -> Json {
    let r0 = match lookup(obj, "@value"@) {
        Some(v) => insert_entry(Seq::empty(), "@value"@, v),
        None => Seq::empty(),
    };
    let r1 = match lookup(obj, "@type"@) {
        Some(Json::Str(t)) => insert_entry(r0, "@type"@, Json::Str(expanded_iri(t, ctx))),
        _ => r0,
    };
    let r2 = match lookup(obj, "@language"@) {
        Some(Json::Str(l)) => if l.len() == 0 {
            r1
        } else {
            insert_entry(r1, "@language"@, Json::Str(lowercased(l)))
        },
        _ => r1,
    };
    let r3 = match lookup(obj, "@direction"@) {
        Some(Json::Str(d)) => if d == "ltr"@ || d == "rtl"@ {
            insert_entry(r2, "@direction"@, Json::Str(d))
        } else {
            r2
        },
        _ => r2,
    };
    Json::Object(with_text_entry(r3, obj, "@index"@))
}

/// The expanded form of a value object.
pub fn expand_value_object(obj: &Vec<(String, Value)>, active_context: &Context) -> (r: Value)
    ensures
        r@ == expanded_value_object(entries_model(obj@), active_context@),
{
    let ghost e = entries_model(obj@);
    let mut result: Vec<(String, Value)> = Vec::new();
    assert(entries_model(result@) =~= Seq::empty());
    match obj_get(obj, "@value") {
        Some(v) => {
            obj_insert(&mut result, "@value".to_string(), v.deep_clone());
        },
        None => {},
    }
    match obj_get(obj, "@type") {
        Some(Value::Str(t)) => {
            assert(lookup(e, "@type"@) == Some(Json::Str(t@)));
            obj_insert(&mut result, "@type".to_string(), expand_iri(t.as_str(), active_context));
        },
        Some(other) => {
            assert(lookup(e, "@type"@) == Some(other@));
            assert(!(other@ is Str));
        },
        None => {},
    }
    match obj_get(obj, "@language") {
        Some(Value::Str(l)) => {
            assert(lookup(e, "@language"@) == Some(Json::Str(l@)));
            if !l.as_str().is_empty() {
                obj_insert(
                    &mut result,
                    "@language".to_string(),
                    Value::Str(to_lowercase(l.as_str())),
                );
            }
        },
        Some(other) => {
            assert(lookup(e, "@language"@) == Some(other@));
            assert(!(other@ is Str));
        },
        None => {},
    }
    match obj_get(obj, "@direction") {
        Some(Value::Str(d)) => {
            assert(lookup(e, "@direction"@) == Some(Json::Str(d@)));
            if same_text(d.as_str(), "ltr") || same_text(d.as_str(), "rtl") {
                obj_insert(&mut result, "@direction".to_string(), Value::Str(d.clone()));
            }
        },
        Some(other) => {
            assert(lookup(e, "@direction"@) == Some(other@));
            assert(!(other@ is Str));
        },
        None => {},
    }
    match obj_get(obj, "@index") {
        Some(Value::Str(x)) => {
            assert(lookup(e, "@index"@) == Some(Json::Str(x@)));
            obj_insert(&mut result, "@index".to_string(), Value::Str(x.clone()));
        },
        Some(other) => {
            assert(lookup(e, "@index"@) == Some(other@));
            assert(!(other@ is Str));
        },
        None => {},
    }
    Value::Object(result)
}

/// The expanded form of the value of `@type`.
pub fn expand_type_value(type_val: &Value, active_context: &Context) -> (r: Value)
    ensures
        r@ == expanded_type(type_val@, active_context@),
{
    match type_val {
        Value::Str(s) => expand_iri(s.as_str(), active_context),
        Value::Array(arr) => {
            let mut out: Vec<Value> = Vec::new();
            let mut i: usize = 0;
            while i < arr.len()
                invariant
                    i <= arr.len(),
                    out.len() == i,
                    forall|j: int|
                        0 <= j < i ==> (#[trigger] out[j])@ == expanded_type_item(
                            arr[j]@,
                            active_context@,
                        ),
                decreases arr.len() - i,
            {
                let item = match &arr[i] {
                    Value::Str(s) => expand_iri(s.as_str(), active_context),
                    other => {
                        assert(!(other@ is Str));
                        other.deep_clone()
                    },
                };
                out.push(item);
                i += 1;
            }
            assert(array_model(out@) =~= Seq::new(
                array_model(arr@).len(),
                |i: int| expanded_type_item(array_model(arr@)[i], active_context@),
            ));
            Value::Array(out)
        },
        _ => type_val.deep_clone(),
    }
}

/// Whether a key is one of the keywords that the expansion of an object
/// handles by itself.
pub open spec fn is_handled_keyword(key: Seq<char>) -> bool {
    key == "@context"@ || key == "@type"@ || key == "@id"@ || key == "@graph"@ || key == "@list"@
        || key == "@set"@ || key == "@reverse"@
}

/// The expanded form of an element of a document in a context, under the
/// property `active`, or at the top where there is none. Numbers, booleans
/// and strings under a property become value objects; an array expands its
/// items, leaves out those that expand to null and takes in the items of
/// those that expand to arrays; an object with an `@value` is a value
/// object, an object with an `@set` expands to what the set expands to,
/// and any other object expands its keywords and its properties, and
/// stands in an array at the top.
pub open spec fn expanded(element: Json, ctx: ContextModel, active: Option<Seq<char>>) -> Json
    decreases element, 0nat,
{
    match element {
        Json::Null => Json::Null,
        Json::Bool(_) => expanded_scalar(element, active),
        Json::Number(_) => expanded_scalar(element, active),
        Json::Str(s) => expanded_string(s, ctx, active),
        Json::Array(items) => Json::Array(expanded_items(items, 0, ctx, active)),
        Json::Object(obj) => if lookup(obj, "@value"@) is Some {
            expanded_value_object(obj, ctx)
        } else {
            match key_index(obj, "@set"@) {
                Some(at) => if 0 <= at < obj.len() {
                    expanded(obj[at].1, ctx, active)
                } else {
                    Json::Null
                },
                None => {
                    let r = expanded_properties(
                        obj,
                        0,
                        ctx,
                        with_reverse(obj, ctx, with_list(obj, ctx, active, with_graph(
                            obj,
                            ctx,
                            with_id(obj, ctx, with_type(obj, ctx)),
                        ))),
                    );
                    if active is None {
                        Json::Array(seq![Json::Object(r)])
                    } else {
                        Json::Object(r)
                    }
                },
            }
        },
    }
}

/// The expanded items of an array from position `i` on, without those that
/// expand to null and with the items of those that expand to arrays.
pub open spec fn expanded_items(items: Seq<Json>, i: int, ctx: ContextModel, active: Option<Seq<char>>) -> Seq<Json>
    decreases items, items.len() - i,
{
    if i < 0 || i >= items.len() {
        Seq::empty()
    } else {
        (match expanded(items[i], ctx, active) {
            Json::Null => Seq::empty(),
            Json::Array(inner) => inner,
            other => seq![other],
        }) + expanded_items(items, i + 1, ctx, active)
    }
}

/// The entries of an expanded object with its type.
pub open spec fn with_type(obj: Entries, ctx: ContextModel) -> Entries {
    match lookup(obj, "@type"@) {
        Some(t) => insert_entry(Seq::empty(), "@type"@, expanded_type(t, ctx)),
        None => Seq::empty(),
    }
}

/// The entries of an expanded object with its identifier, where that is a
/// string.
pub open spec fn with_id(obj: Entries, ctx: ContextModel, acc: Entries) -> Entries {
    match lookup(obj, "@id"@) {
        Some(Json::Str(id)) => insert_entry(acc, "@id"@, Json::Str(expanded_iri(id, ctx))),
        _ => acc,
    }
}

/// The entries of an expanded object with its graph.
pub open spec fn with_graph(obj: Entries, ctx: ContextModel, acc: Entries) -> Entries
    decreases obj, obj.len() + 5,
{
    match key_index(obj, "@graph"@) {
        Some(at) => if 0 <= at < obj.len() {
            insert_entry(acc, "@graph"@, expanded(obj[at].1, ctx, Some("@graph"@)))
        } else {
            acc
        },
        None => acc,
    }
}

/// The expanded items of a list from position `i` on, each in its place.
pub open spec fn expanded_list(items: Seq<Json>, i: int, ctx: ContextModel, active: Option<Seq<char>>) -> Seq<Json>
    decreases items, items.len() - i,
{
    if i < 0 || i >= items.len() {
        Seq::empty()
    } else {
        seq![expanded(items[i], ctx, active)] + expanded_list(items, i + 1, ctx, active)
    }
}

/// The entries of an expanded object with its list: the expanded items of
/// an array, or the one expanded value.
pub open spec fn with_list(obj: Entries, ctx: ContextModel, active: Option<Seq<char>>, acc: Entries) -> Entries
    decreases obj, obj.len() + 5,
{
    match key_index(obj, "@list"@) {
        Some(at) => if 0 <= at < obj.len() {
            match obj[at].1 {
                Json::Array(items) => insert_entry(
                    acc,
                    "@list"@,
                    Json::Array(expanded_list(items, 0, ctx, active)),
                ),
                _ => insert_entry(
                    acc,
                    "@list"@,
                    Json::Array(seq![expanded(obj[at].1, ctx, active)]),
                ),
            }
        } else {
            acc
        },
        None => acc,
    }
}

/// The entries of a reverse map from position `i` on, each under its
/// expanded property.
pub open spec fn reverse_entries(rev: Entries, i: int, ctx: ContextModel, acc: Entries) -> Entries
    decreases rev, rev.len() - i,
{
    if i < 0 || i >= rev.len() {
        acc
    } else {
        let prop = expanded_iri(rev[i].0, ctx);
        reverse_entries(
            rev,
            i + 1,
            ctx,
            insert_entry(acc, prop, expanded(rev[i].1, ctx, Some(prop))),
        )
    }
}

/// The entries of an expanded object with its reverse map, where that is
/// an object.
pub open spec fn with_reverse(obj: Entries, ctx: ContextModel, acc: Entries) -> Entries
    decreases obj, obj.len() + 5,
{
    match key_index(obj, "@reverse"@) {
        Some(at) => if 0 <= at < obj.len() {
            match obj[at].1 {
                Json::Object(rev) => insert_entry(
                    acc,
                    "@reverse"@,
                    Json::Object(reverse_entries(rev, 0, ctx, Seq::empty())),
                ),
                _ => acc,
            }
        } else {
            acc
        },
        None => acc,
    }
}

/// The entries of an expanded object with the entries from position `i` on
/// that the expansion does not handle by itself: a keyword as it is, a
/// property under its expanded IRI with its expanded value unless that is
/// null.
pub open spec fn expanded_properties(obj: Entries, i: int, ctx: ContextModel, acc: Entries) -> Entries
    decreases obj, obj.len() - i,
{
    if i < 0 || i >= obj.len() {
        acc
    } else if is_handled_keyword(obj[i].0) {
        expanded_properties(obj, i + 1, ctx, acc)
    } else if is_keyword(obj[i].0) {
        expanded_properties(obj, i + 1, ctx, insert_entry(acc, obj[i].0, obj[i].1))
    } else {
        let prop = expanded_iri(obj[i].0, ctx);
        let value = expanded(obj[i].1, ctx, Some(prop));
        expanded_properties(
            obj,
            i + 1,
            ctx,
            if value is Null {
                acc
            } else {
                insert_entry(acc, prop, value)
            },
        )
    }
}

/// The options for what stands under a property.
pub fn options_under(options: &ExpandOptions, property: &str) -> (r: ExpandOptions)
    ensures
        active_model(&r) == Some(property@),
{
    ExpandOptions {
        active_property: Some(property.to_owned()),
        active_graph: options.active_graph.clone(),
    }
}

/// The expanded form of a number or a boolean; any other element is
/// handed back as it is.
pub fn expand_scalar(element: &Value, options: &ExpandOptions) -> (r: Value)
    ensures
        r@ == expanded_scalar(element@, active_model(options)),
{
    match &options.active_property {
        None => element.deep_clone(),
        Some(_) => match element {
            Value::Bool(_) => make_typed_value_object(
                element.deep_clone(),
                "http://www.w3.org/2001/XMLSchema#boolean",
            ),
            Value::Number(Number::Float(_)) => make_typed_value_object(
                element.deep_clone(),
                "http://www.w3.org/2001/XMLSchema#double",
            ),
            Value::Number(_) => make_typed_value_object(
                element.deep_clone(),
                "http://www.w3.org/2001/XMLSchema#integer",
            ),
            _ => element.deep_clone(),
        },
    }
}

/// The value object of a string in the default language of the context.
pub fn make_default_language_value(s: &str, active_context: &Context) -> (r: Value)
    ensures
        r@ == default_language_value(s@, active_context@),
{
    match &active_context.language {
        Some(lang) => make_language_value_object(s, lang.as_str()),
        None => make_plain_value_object(s),
    }
}

/// The expanded form of a string.
pub fn expand_string(s: &str, active_context: &Context, options: &ExpandOptions) -> (r: Value)
    ensures
        r@ == expanded_string(s@, active_context@, active_model(options)),
{
    match &options.active_property {
        None => Value::text(s),
        Some(prop) => {
            if same_text(prop.as_str(), "@id") || same_text(prop.as_str(), "@type") {
                expand_iri(s, active_context)
            } else {
                match find_term_language(&active_context.terms, prop.as_str()) {
                    Some(LanguageMapping::Language(lang)) => make_language_value_object(
                        s,
                        lang.as_str(),
                    ),
                    Some(LanguageMapping::NoLanguage) => make_plain_value_object(s),
                    None => make_default_language_value(s, active_context),
                }
            }
        },
    }
}

/// The expanded form of an element of a document.
#[verifier::loop_isolation(false)]
pub fn expand_value(element: &Value, active_context: &Context, options: &ExpandOptions) -> (r: Value)
    ensures
        r@ == expanded(element@, active_context@, active_model(options)),
    decreases element, 0nat,
{
    let ghost ctx = active_context@;
    let ghost active = active_model(options);
    match element {
        Value::Null => Value::Null,
        Value::Bool(_) => expand_scalar(element, options),
        Value::Number(_) => expand_scalar(element, options),
        Value::Str(s) => expand_string(s.as_str(), active_context, options),
        Value::Array(arr) => {
            let ghost items = array_model(arr@);
            let mut out: Vec<Value> = Vec::new();
            assert(array_model(out@) =~= Seq::empty());
            let mut i: usize = 0;
            while i < arr.len()
                invariant
                    i <= arr.len(),
                    array_model(out@) + expanded_items(items, i as int, ctx, active)
                        == expanded_items(items, 0, ctx, active),
                decreases arr.len() - i,
            {
                let ghost before = array_model(out@);
                let ghost next = expanded_items(items, i + 1, ctx, active);
                let item = expand_value(&arr[i], active_context, options);
                match item {
                    Value::Null => {
                        assert(before + (Seq::<Json>::empty() + next) =~= before + next);
                    },
                    Value::Array(inner) => {
                        let ghost inner_model = array_model(inner@);
                        let mut k: usize = 0;
                        while k < inner.len()
                            invariant
                                k <= inner.len(),
                                inner_model == array_model(inner@),
                                array_model(out@) == before + inner_model.take(k as int),
                            decreases inner.len() - k,
                        {
                            let ghost prev = array_model(out@);
                            out.push(inner[k].deep_clone());
                            assert(array_model(out@) =~= prev.push(inner_model[k as int]));
                            assert(inner_model.take(k as int).push(inner_model[k as int])
                                =~= inner_model.take(k + 1));
                            assert(array_model(out@) =~= before + inner_model.take(k + 1));
                            k += 1;
                        }
                        assert(inner_model.take(inner.len() as int) =~= inner_model);
                        assert(before + (inner_model + next) =~= (before + inner_model) + next);
                    },
                    other => {
                        assert(!(other@ is Null) && !(other@ is Array));
                        out.push(other);
                        assert(array_model(out@) =~= before + seq![other@]);
                        assert(before + (seq![other@] + next) =~= (before + seq![other@]) + next);
                    },
                }
                i += 1;
            }
            assert(array_model(out@) + Seq::<Json>::empty() =~= array_model(out@));
            Value::Array(out)
        },
        Value::Object(obj) => {
            let ghost e = entries_model(obj@);
            let has_value = match obj_get(obj, "@value") {
                Some(_) => true,
                None => false,
            };
            if has_value {
                return expand_value_object(obj, active_context);
            }
            match find_key(obj, "@set") {
                Some(at) => {
                    return expand_value(&obj[at].1, active_context, options);
                },
                None => {},
            }
            let mut result: Vec<(String, Value)> = Vec::new();
            assert(entries_model(result@) =~= Seq::empty());
            match obj_get(obj, "@type") {
                Some(t) => {
                    obj_insert(
                        &mut result,
                        "@type".to_string(),
                        expand_type_value(t, active_context),
                    );
                },
                None => {},
            }
            assert(entries_model(result@) == with_type(e, ctx));
            match obj_get(obj, "@id") {
                Some(Value::Str(id)) => {
                    assert(lookup(e, "@id"@) == Some(Json::Str(id@)));
                    obj_insert(&mut result, "@id".to_string(), expand_iri(id.as_str(), active_context));
                },
                Some(other) => {
                    assert(lookup(e, "@id"@) == Some(other@));
                    assert(!(other@ is Str));
                },
                None => {},
            }
            assert(entries_model(result@) == with_id(e, ctx, with_type(e, ctx)));
            expand_graph(obj, active_context, options, &mut result);
            expand_list(obj, active_context, options, &mut result);
            expand_reverse(obj, active_context, options, &mut result);
            expand_properties(obj, active_context, options, &mut result);
            match &options.active_property {
                None => {
                    let items = vec![Value::Object(result)];
                    assert(array_model(items@) =~= seq![Json::Object(entries_model(result@))]);
                    Value::Array(items)
                },
                Some(_) => Value::Object(result),
            }
        },
    }
}

/// Puts the expanded graph of an object into the entries.
pub fn expand_graph(
    obj: &Vec<(String, Value)>,
    active_context: &Context,
    options: &ExpandOptions,
    result: &mut Vec<(String, Value)>,
)
    ensures
        entries_model(final(result)@) == with_graph(
            entries_model(obj@),
            active_context@,
            entries_model(old(result)@),
        ),
    decreases obj, obj.len() + 5,
{
    match find_key(obj, "@graph") {
        Some(at) => {
            let under = options_under(options, "@graph");
            let g = expand_value(&obj[at].1, active_context, &under);
            obj_insert(result, "@graph".to_string(), g);
        },
        None => {},
    }
}

/// Puts the expanded list of an object into the entries.
#[verifier::loop_isolation(false)]
pub fn expand_list(
    obj: &Vec<(String, Value)>,
    active_context: &Context,
    options: &ExpandOptions,
    result: &mut Vec<(String, Value)>,
)
    ensures
        entries_model(final(result)@) == with_list(
            entries_model(obj@),
            active_context@,
            active_model(options),
            entries_model(old(result)@),
        ),
    decreases obj, obj.len() + 5,
{
    let ghost ctx = active_context@;
    let ghost active = active_model(options);
    match find_key(obj, "@list") {
        Some(at) => {
            match &obj[at].1 {
                Value::Array(list) => {
                    let ghost items = array_model(list@);
                    assert(entries_model(obj@)[at as int].1 == Json::Array(items));
                    let mut out: Vec<Value> = Vec::new();
                    assert(array_model(out@) =~= Seq::empty());
                    let mut i: usize = 0;
                    while i < list.len()
                        invariant
                            i <= list.len(),
                            array_model(out@) + expanded_list(items, i as int, ctx, active)
                                == expanded_list(items, 0, ctx, active),
                        decreases list.len() - i,
                    {
                        let ghost before = array_model(out@);
                        let item = expand_value(&list[i], active_context, options);
                        out.push(item);
                        proof {
                            let one = seq![expanded(items[i as int], ctx, active)];
                            let next = expanded_list(items, i + 1, ctx, active);
                            assert(array_model(out@) =~= before + one);
                            assert(before + (one + next) =~= (before + one) + next);
                        }
                        i += 1;
                    }
                    assert(array_model(out@) + Seq::<Json>::empty() =~= array_model(out@));
                    obj_insert(result, "@list".to_string(), Value::Array(out));
                },
                other => {
                    assert(!(entries_model(obj@)[at as int].1 is Array));
                    let one = vec![expand_value(other, active_context, options)];
                    assert(array_model(one@) =~= seq![expanded(other@, ctx, active)]);
                    obj_insert(result, "@list".to_string(), Value::Array(one));
                },
            }
        },
        None => {},
    }
}

/// Puts the expanded reverse map of an object into the entries.
#[verifier::loop_isolation(false)]
pub fn expand_reverse(
    obj: &Vec<(String, Value)>,
    active_context: &Context,
    options: &ExpandOptions,
    result: &mut Vec<(String, Value)>,
)
    ensures
        entries_model(final(result)@) == with_reverse(
            entries_model(obj@),
            active_context@,
            entries_model(old(result)@),
        ),
    decreases obj, obj.len() + 5,
{
    let ghost ctx = active_context@;
    match find_key(obj, "@reverse") {
        Some(at) => {
            match &obj[at].1 {
                Value::Object(reverse_obj) => {
                    let ghost rev = entries_model(reverse_obj@);
                    assert(entries_model(obj@)[at as int].1 == Json::Object(rev));
                    let mut map: Vec<(String, Value)> = Vec::new();
                    assert(entries_model(map@) =~= Seq::empty());
                    let mut i: usize = 0;
                    while i < reverse_obj.len()
                        invariant
                            i <= reverse_obj.len(),
                            reverse_entries(rev, i as int, ctx, entries_model(map@))
                                == reverse_entries(rev, 0, ctx, Seq::empty()),
                        decreases reverse_obj.len() - i,
                    {
                        let prop = expand_property_iri(reverse_obj[i].0.as_str(), active_context);
                        let under = options_under(options, prop.as_str());
                        let v = expand_value(&reverse_obj[i].1, active_context, &under);
                        obj_insert(&mut map, prop, v);
                        i += 1;
                    }
                    obj_insert(result, "@reverse".to_string(), Value::Object(map));
                },
                _ => {
                    assert(!(entries_model(obj@)[at as int].1 is Object));
                },
            }
        },
        None => {},
    }
}

/// Whether a key is one of the keywords that the expansion of an object
/// handles by itself.
pub fn key_is_handled(key: &str) -> (r: bool)
    ensures
        r == is_handled_keyword(key@),
{
    same_text(key, "@context") || same_text(key, "@type") || same_text(key, "@id") || same_text(
        key,
        "@graph",
    ) || same_text(key, "@list") || same_text(key, "@set") || same_text(key, "@reverse")
}

/// Puts the other entries of an object, expanded, into the entries.
#[verifier::loop_isolation(false)]
pub fn expand_properties(
    obj: &Vec<(String, Value)>,
    active_context: &Context,
    options: &ExpandOptions,
    result: &mut Vec<(String, Value)>,
)
    ensures
        entries_model(final(result)@) == expanded_properties(
            entries_model(obj@),
            0,
            active_context@,
            entries_model(old(result)@),
        ),
    decreases obj, obj.len() + 5,
{
    let ghost ctx = active_context@;
    let ghost e = entries_model(obj@);
    let ghost start = entries_model(result@);
    let mut i: usize = 0;
    while i < obj.len()
        invariant
            i <= obj.len(),
            expanded_properties(e, i as int, ctx, entries_model(result@)) == expanded_properties(
                e,
                0,
                ctx,
                start,
            ),
        decreases obj.len() - i,
    {
        let key = obj[i].0.as_str();
        if key_is_handled(key) {
        } else if key_is_keyword(key) {
            obj_insert(result, obj[i].0.clone(), obj[i].1.deep_clone());
        } else {
            let prop = expand_property_iri(key, active_context);
            let under = options_under(options, prop.as_str());
            let v = expand_value(&obj[i].1, active_context, &under);
            let is_null = match &v {
                Value::Null => true,
                _ => false,
            };
            if !is_null {
                obj_insert(result, prop, v);
            }
        }
        i += 1;
    }
}

/// The expanded form of a document in the default context.
pub fn simple_expand(input: &Value) -> (r: Value)
    ensures
        r@ == expanded(input@, default_context_model(), None),
{
    let context = default_context();
    let options = ExpandOptions::default();
    expand_value(input, &context, &options)
}

/// The fast expanded form of an IRI: an IRI that begins with `https://`
/// stands for itself; `prefix:local` with a known prefix stands for the
/// namespace of the prefix followed by the local part; anything else
/// stands in the vocabulary.
pub open spec fn fast_expanded_iri(iri: Seq<char>, ctx: ContextModel) -> Seq<char> {
    if has_prefix(iri, "https://"@) {
        iri
    } else if iri.contains(':') {
        let at = first_index_of(iri, ':');
        match pair_lookup(ctx.prefixes, iri.subrange(0, at)) {
            Some(namespace) => namespace + iri.subrange(at + 1, iri.len() as int),
            None => ctx.vocab + iri,
        }
    } else {
        ctx.vocab + iri
    }
}

/// Whether a text begins with `https://`.
pub fn is_absolute_iri_simd(iri: &str) -> (r: bool)
    ensures
        r == has_prefix(iri@, "https://"@),
{
    crate::text::str_starts_with(iri, "https://")
}

/// The fast expanded form of an IRI, as a document.
pub fn turbo_expand_iri(iri: &str, context: &Context) -> (r: Value)
    ensures
        r@ == Json::Str(fast_expanded_iri(iri@, context@)),
{
    if is_absolute_iri_simd(iri) {
        return Value::text(iri);
    }
    let p = chars_of(iri);
    match colon_position(&p) {
        Some(at) => {
            let prefix = string_of(&slice_chars(&p, 0, at));
            let local = slice_chars(&p, at + 1, p.len());
            match find_prefix(&context.prefixes, prefix.as_str()) {
                Some(namespace) => {
                    let mut out = chars_of(namespace.as_str());
                    push_chars(&mut out, &local);
                    return Value::Str(string_of(&out));
                },
                None => {},
            }
        },
        None => {},
    }
    let mut out = chars_of(context.vocab.as_str());
    push_chars(&mut out, &p);
    Value::Str(string_of(&out))
}

/// The fast expanded form of a string: as the expanded form, but with the
/// fast expanded IRI under `@id` and `@type`, and in the default language
/// of the context also where the term says that there is no language.
pub open spec fn fast_expanded_string(s: Seq<char>, ctx: ContextModel, active: Option<Seq<char>>) -> Json {
    match active {
        None => Json::Str(s),
        Some(prop) => if prop == "@id"@ || prop == "@type"@ {
            Json::Str(fast_expanded_iri(s, ctx))
        } else {
            match term_language(ctx.terms, prop) {
                Some(LanguageModel::Language(lang)) => language_value_object(s, lang),
                _ => default_language_value(s, ctx),
            }
        },
    }
}

/// The fast expanded form of an element: scalars and strings by the fast
/// rules, an array item by item without those that expand to null, and an
/// object as its expanded form.
pub open spec fn fast_expanded(element: Json, ctx: ContextModel, active: Option<Seq<char>>) -> Json
    decreases element, 0nat,
{
    match element {
        Json::Str(s) => fast_expanded_string(s, ctx, active),
        Json::Number(_) => expanded_scalar(element, active),
        Json::Bool(_) => expanded_scalar(element, active),
        Json::Array(items) => Json::Array(fast_expanded_items(items, 0, ctx, active)),
        Json::Object(_) => expanded(element, ctx, active),
        Json::Null => element,
    }
}

/// The fast expanded items of an array from position `i` on, without those
/// that expand to null.
pub open spec fn fast_expanded_items(
    items: Seq<Json>,
    i: int,
    ctx: ContextModel,
    active: Option<Seq<char>>,
) -> Seq<Json>
    decreases items, items.len() - i,
{
    if i < 0 || i >= items.len() {
        Seq::empty()
    } else {
        (match fast_expanded(items[i], ctx, active) {
            Json::Null => Seq::empty(),
            other => seq![other],
        }) + fast_expanded_items(items, i + 1, ctx, active)
    }
}

/// The fast expanded form of an element of a document.
#[verifier::loop_isolation(false)]
pub fn turbo_expand_with_arena(element: &Value, active_context: &Context, options: &ExpandOptions) -> (r: Value)
    ensures
        r@ == fast_expanded(element@, active_context@, active_model(options)),
    decreases element,
{
    let ghost ctx = active_context@;
    let ghost active = active_model(options);
    match element {
        Value::Str(s) => match &options.active_property {
            None => Value::Str(s.clone()),
            Some(prop) => {
                if same_text(prop.as_str(), "@id") || same_text(prop.as_str(), "@type") {
                    turbo_expand_iri(s.as_str(), active_context)
                } else {
                    match find_term_language(&active_context.terms, prop.as_str()) {
                        Some(LanguageMapping::Language(lang)) => make_language_value_object(
                            s.as_str(),
                            lang.as_str(),
                        ),
                        _ => make_default_language_value(s.as_str(), active_context),
                    }
                }
            },
        },
        Value::Number(_) => expand_scalar(element, options),
        Value::Bool(_) => expand_scalar(element, options),
        Value::Array(arr) => {
            let ghost items = array_model(arr@);
            let mut out: Vec<Value> = Vec::new();
            assert(array_model(out@) =~= Seq::empty());
            let mut i: usize = 0;
            while i < arr.len()
                invariant
                    i <= arr.len(),
                    array_model(out@) + fast_expanded_items(items, i as int, ctx, active)
                        == fast_expanded_items(items, 0, ctx, active),
                decreases arr.len() - i,
            {
                let ghost before = array_model(out@);
                let ghost next = fast_expanded_items(items, i + 1, ctx, active);
                let item = turbo_expand_with_arena(&arr[i], active_context, options);
                match item {
                    Value::Null => {
                        assert(before + (Seq::<Json>::empty() + next) =~= before + next);
                    },
                    other => {
                        assert(!(other@ is Null));
                        out.push(other);
                        assert(array_model(out@) =~= before + seq![other@]);
                        assert(before + (seq![other@] + next) =~= (before + seq![other@]) + next);
                    },
                }
                i += 1;
            }
            assert(array_model(out@) + Seq::<Json>::empty() =~= array_model(out@));
            Value::Array(out)
        },
        Value::Object(_) => expand_value(element, active_context, options),
        Value::Null => Value::Null,
    }
}

/// The fast expanded form of a document in the default context.
pub fn turbo_expand(input: &Value) -> (r: Value)
    ensures
        r@ == fast_expanded(input@, default_context_model(), None),
{
    let context = default_context();
    let options = ExpandOptions::default();
    turbo_expand_with_arena(input, &context, &options)
}

} // verus!
