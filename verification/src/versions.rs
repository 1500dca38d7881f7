//! Semantic versions: what a version text holds, how two versions are
//! ordered, and whether a version meets a requirement.

use crate::reports::{convert_npm_requirement, npm_requirement};
use crate::value::{entries_model, Json, NumberModel, Value};
use vstd::prelude::*;

verus! {

/// The parts of a semantic version.
#[derive(Debug)]
pub struct VersionParts {
    pub major: u64,
    pub minor: u64,
    pub patch: u64,
    /// The pre-release identifiers, or the empty text.
    pub prerelease: String,
    /// The build metadata, or the empty text.
    pub build: String,
    /// The version as a text.
    pub full_version: String,
}

/// The model of the parts of a semantic version.
pub struct VersionPartsModel {
    pub major: u64,
    pub minor: u64,
    pub patch: u64,
    pub prerelease: Seq<char>,
    pub build: Seq<char>,
    pub full_version: Seq<char>,
}

impl View for VersionParts {
    type V = VersionPartsModel;

    open spec fn view(&self) -> VersionPartsModel {
        VersionPartsModel {
            major: self.major,
            minor: self.minor,
            patch: self.patch,
            prerelease: self.prerelease@,
            build: self.build@,
            full_version: self.full_version@,
        }
    }
}

/// How one version stands to another.
#[derive(Debug, Clone, Copy, PartialEq, Eq, Structural)]
pub enum VersionOrder {
    Less,
    Equal,
    Greater,
}

/// What the crate `semver` reads from a version text: its parts, or the
/// message of the error.
pub uninterp spec fn parsed_version(s: Seq<char>) -> Result<VersionPartsModel, Seq<char>>;

/// The model of what reading a version gives.
pub open spec fn parts_model(r: Result<VersionParts, String>) -> Result<VersionPartsModel, Seq<char>> {
    match r {
        Ok(p) => Ok(p@),
        Err(e) => Err(e@),
    }
}

/// `Version::parse` of the crate `semver`: the three numbers of the
/// version, its pre-release and build parts and the version itself as
/// texts, or the message of the error. The contract gives the result its
/// name and claims nothing else of it.
#[verifier::external_body]
pub(crate) fn version_parts(s: &str) -> (r: Result<VersionParts, String>)
    ensures
        parts_model(r) == parsed_version(s@),
{
    match semver::Version::parse(s) {
        Ok(v) => Ok(VersionParts {
            major: v.major,
            minor: v.minor,
            patch: v.patch,
            prerelease: v.pre.to_string(),
            build: v.build.to_string(),
            full_version: v.to_string(),
        }),
        Err(e) => Err(e.to_string()),
    }
}

/// How the crate `semver` orders the versions that two texts denote;
/// nothing where one of them is no version. The name stands for the
/// reading of both texts and the comparison of what was read, taken
/// together: a version is held only between those calls.
pub uninterp spec fn ordered_versions(a: Seq<char>, b: Seq<char>) -> Option<VersionOrder>;

/// `Version::parse` of the crate `semver` on both texts, and the order of
/// the two versions by their `Ord`. There is an order exactly where both
/// texts are versions.
#[verifier::external_body]
pub(crate) fn version_order(a: &str, b: &str) -> (r: Option<VersionOrder>)
    ensures
        r == ordered_versions(a@, b@),
        r is Some <==> (parsed_version(a@) is Ok && parsed_version(b@) is Ok),
{
    match (semver::Version::parse(a), semver::Version::parse(b)) {
        (Ok(x), Ok(y)) => Some(match x.cmp(&y) {
            std::cmp::Ordering::Less => VersionOrder::Less,
            std::cmp::Ordering::Equal => VersionOrder::Equal,
            std::cmp::Ordering::Greater => VersionOrder::Greater,
        }),
        _ => None,
    }
}

/// What is wrong with a requirement text for the crate `semver`: the
/// message of the error, or nothing for a requirement.
pub uninterp spec fn requirement_problem(req: Seq<char>) -> Option<Seq<char>>;

/// `VersionReq::parse` of the crate `semver`: the message of its error, or
/// nothing.
#[verifier::external_body]
pub(crate) fn requirement_error(req: &str) -> (r: Option<String>)
    ensures
        crate::triples::text_model(r) == requirement_problem(req@),
{
    semver::VersionReq::parse(req).err().map(|e| e.to_string())
}

/// Whether the version that a text denotes meets the requirement that
/// another denotes, for the crate `semver`; nothing where one of them does
/// not parse. The name stands for the reading of both texts and the test
/// of what was read, taken together: a version and a requirement are held
/// only between those calls.
pub uninterp spec fn matching_version(version: Seq<char>, req: Seq<char>) -> Option<bool>;

/// `VersionReq::matches` of the crate `semver` on the requirement and the
/// version that the two texts denote. There is an answer exactly where
/// both parse.
#[verifier::external_body]
pub(crate) fn version_matches(version: &str, req: &str) -> (r: Option<bool>)
    ensures
        r == matching_version(version@, req@),
        r is Some <==> (parsed_version(version@) is Ok && requirement_problem(req@) is None),
{
    match (semver::Version::parse(version), semver::VersionReq::parse(req)) {
        (Ok(v), Ok(q)) => Some(q.matches(&v)),
        _ => None,
    }
}

/// A text as a document, or null for the empty text.
pub open spec fn text_or_null(s: Seq<char>) -> Json {
    if s.len() == 0 {
        Json::Null
    } else {
        Json::Str(s)
    }
}

/// The document of a version.
pub open spec fn version_document(p: VersionPartsModel) -> Json {
    Json::Object(
        seq![
            (
                "@context"@,
                Json::Object(seq![("@vocab"@, Json::Str("https://semver.org/spec/v2.0.0/"@))]),
            ),
            ("@type"@, Json::Str("Version"@)),
            ("build"@, text_or_null(p.build)),
            ("full_version"@, Json::Str(p.full_version)),
            ("major"@, Json::Number(NumberModel::PosInt(p.major))),
            ("minor"@, Json::Number(NumberModel::PosInt(p.minor))),
            ("patch"@, Json::Number(NumberModel::PosInt(p.patch))),
            ("prerelease"@, text_or_null(p.prerelease)),
        ],
    )
}

/// A text as a document, or null for the empty text.
pub fn make_text_or_null(s: &String) -> (r: Value)
    ensures
        r@ == text_or_null(s@),
{
    if s.as_str().is_empty() {
        Value::Null
    } else {
        Value::Str(s.clone())
    }
}

/// The document of a version.
pub fn make_version_document(p: &VersionParts) -> (r: Value)
    ensures
        r@ == version_document(p@),
{
    let context = vec![("@vocab".to_string(), Value::text("https://semver.org/spec/v2.0.0/"))];
    assert(entries_model(context@) =~= seq![
        ("@vocab"@, Json::Str("https://semver.org/spec/v2.0.0/"@)),
    ]);
    let entries = vec![
        ("@context".to_string(), Value::Object(context)),
        ("@type".to_string(), Value::text("Version")),
        ("build".to_string(), make_text_or_null(&p.build)),
        ("full_version".to_string(), Value::Str(p.full_version.clone())),
        ("major".to_string(), Value::uint(p.major)),
        ("minor".to_string(), Value::uint(p.minor)),
        ("patch".to_string(), Value::uint(p.patch)),
        ("prerelease".to_string(), make_text_or_null(&p.prerelease)),
    ];
    assert(entries_model(entries@) =~= seq![
        (
            "@context"@,
            Json::Object(seq![("@vocab"@, Json::Str("https://semver.org/spec/v2.0.0/"@))]),
        ),
        ("@type"@, Json::Str("Version"@)),
        ("build"@, text_or_null(p@.build)),
        ("full_version"@, Json::Str(p@.full_version)),
        ("major"@, Json::Number(NumberModel::PosInt(p@.major))),
        ("minor"@, Json::Number(NumberModel::PosInt(p@.minor))),
        ("patch"@, Json::Number(NumberModel::PosInt(p@.patch))),
        ("prerelease"@, text_or_null(p@.prerelease)),
    ]);
    Value::Object(entries)
}

/// The model of a document or an error message.
pub open spec fn outcome_model(r: Result<Value, String>) -> Result<Json, Seq<char>> {
    match r {
        Ok(v) => Ok(v@),
        Err(e) => Err(e@),
    }
}

/// The document of the version that a text denotes, or the message of the
/// error for a text that is no version.
pub fn parse_semantic_version(version_str: &str) -> (r: Result<Value, String>)
    ensures
        outcome_model(r) == (match parsed_version(version_str@) {
            Ok(p) => Ok(version_document(p)),
            Err(e) => Err(e),
        }),
{
    match version_parts(version_str) {
        Ok(p) => Ok(make_version_document(&p)),
        Err(e) => Err(e),
    }
}

/// The model of an order or an error message.
pub open spec fn order_model(r: Result<VersionOrder, String>) -> Result<VersionOrder, Seq<char>> {
    match r {
        Ok(o) => Ok(o),
        Err(e) => Err(e@),
    }
}

/// How the first version stands to the second, or the message of the
/// error of the first text that is no version.
pub fn compare_versions(version1: &str, version2: &str) -> (r: Result<VersionOrder, String>)
    ensures
        order_model(r) == (match (parsed_version(version1@), parsed_version(version2@)) {
            (Err(e), _) => Err(e),
            (Ok(_), Err(e)) => Err(e),
            (Ok(_), Ok(_)) => Ok(ordered_versions(version1@, version2@)->Some_0),
        }),
{
    match version_order(version1, version2) {
        Some(o) => Ok(o),
        None => match version_parts(version1) {
            Err(e) => Err(e),
            Ok(_) => match version_parts(version2) {
                Err(e) => Err(e),
                Ok(_) => Ok(VersionOrder::Equal),
            },
        },
    }
}

/// The model of an answer or an error message.
pub open spec fn answer_model(r: Result<bool, String>) -> Result<bool, Seq<char>> {
    match r {
        Ok(b) => Ok(b),
        Err(e) => Err(e@),
    }
}

/// Whether a version meets a requirement, which may have a leading caret;
/// or the message of the error of the version, or else of the requirement.
pub fn satisfies_requirement(version: &str, requirement: &str) -> (r: Result<bool, String>)
    ensures
        answer_model(r) == (match (
            parsed_version(version@),
            requirement_problem(npm_requirement(requirement@)),
        ) {
            (Err(e), _) => Err(e),
            (Ok(_), Some(e)) => Err(e),
            (Ok(_), None) => Ok(
                matching_version(version@, npm_requirement(requirement@))->Some_0,
            ),
        }),
{
    let req = convert_npm_requirement(requirement);
    match version_matches(version, req.as_str()) {
        Some(b) => Ok(b),
        None => match version_parts(version) {
            Err(e) => Err(e),
            Ok(_) => match requirement_error(req.as_str()) {
                Some(e) => Err(e),
                None => Ok(false),
            },
        },
    }
}

} // verus!
