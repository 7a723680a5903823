//! Deterministic bounded disclosure projections.
use vstd::prelude::*;

use crate::canonical::{body_hash, canonicalize, encoding, hash_reference, member_keys, CanonicalError, JsonMember, JsonNumber, JsonTree, JsonValue};
use crate::text::chars_of;

verus! {

pub const COMPLETE_SCHEMA: &'static str = "ghostnet-projection-complete-v1";
pub const TEXT_SCHEMA: &'static str = "ghostnet-projection-text-v1";
pub const SUMMARY_SCHEMA: &'static str = "ghostnet-projection-summary-v1";
pub const COMPACT_SCHEMA: &'static str = "ghostnet-projection-compact-v1";

#[derive(Clone, Debug, PartialEq, Eq)]
pub struct ProjectionSource {
    pub artifact_id: String,
    pub body_hash: String,
    pub report_reference: String,
    pub priority: String,
    pub created_at_ms: u64,
    pub area_class: String,
    pub summary: String,
    pub details: String,
    pub attachment_references: Vec<String>,
    pub compact_code: String,
}

#[derive(Clone, Copy, Debug, PartialEq, Eq, Structural)]
pub enum ProjectionPermission {
    Allowed,
    Forbidden,
}

impl ProjectionPermission {
    pub fn is_allowed(self) -> (r: bool)
        ensures
            r == (self == ProjectionPermission::Allowed),
    {
        matches!(self, Self::Allowed)
    }
}

#[derive(Clone, Copy, Debug, PartialEq, Eq, Structural)]
pub struct ProjectionForms {
    pub details: ProjectionPermission,
    pub attachment_references: ProjectionPermission,
    pub summary: ProjectionPermission,
    pub compact_code: ProjectionPermission,
}

#[derive(Clone, Debug, PartialEq, Eq)]
pub struct ProjectionProfile {
    pub audience: String,
    pub projector: String,
    pub created_at_ms: u64,
    pub maximum_serialized_bytes: usize,
    pub forms: ProjectionForms,
    pub requires_projection_signature: bool,
}

#[derive(Clone, Copy, Debug, PartialEq, Eq, Structural)]
pub enum ProjectionForm {
    Complete,
    TextOnly,
    Summary,
    CompactCode,
}

pub open spec fn schema_of(form: ProjectionForm) -> &'static str {
    match form {
        ProjectionForm::Complete => COMPLETE_SCHEMA,
        ProjectionForm::TextOnly => TEXT_SCHEMA,
        ProjectionForm::Summary => SUMMARY_SCHEMA,
        ProjectionForm::CompactCode => COMPACT_SCHEMA,
    }
}

impl ProjectionForm {
    /// The schema identifier of projections in this form.
    pub fn schema(self) -> (r: &'static str)
        ensures
            r == schema_of(self),
    {
        match self {
            Self::Complete => COMPLETE_SCHEMA,
            Self::TextOnly => TEXT_SCHEMA,
            Self::Summary => SUMMARY_SCHEMA,
            Self::CompactCode => COMPACT_SCHEMA,
        }
    }
}

#[derive(Clone, Copy, Debug, PartialEq, Eq)]
pub enum OmissionReason {
    Policy { field: &'static str },
    BearerLimit { field: &'static str },
}

#[derive(Clone, Debug, PartialEq, Eq)]
pub struct ProjectionPlan {
    pub source_artifact_id: String,
    pub source_body_hash: String,
    pub projection_schema: &'static str,
    pub audience: String,
    pub projector: String,
    pub form: ProjectionForm,
    pub canonical_body: Vec<u8>,
    pub projection_body_hash: String,
    pub omitted_fields: Vec<OmissionReason>,
    pub requires_projection_signature: bool,
}

#[derive(Clone, Copy, Debug, PartialEq, Eq, Structural)]
pub enum ProjectionError {
    ZeroLimit,
    InvalidSourceHash,
    NoSafeProjection,
    Canonical(CanonicalError),
}

/// The forms policy allows, richest first: complete (details and
/// attachment references), text only (details), summary, compact code.
pub open spec fn candidate_forms(forms: ProjectionForms) -> Seq<ProjectionForm> {
    let allowed = |p: ProjectionPermission| p == ProjectionPermission::Allowed;
    (if allowed(forms.details) && allowed(forms.attachment_references) {
        seq![ProjectionForm::Complete]
    } else {
        seq![]
    }) + (if allowed(forms.details) {
        seq![ProjectionForm::TextOnly]
    } else {
        seq![]
    }) + (if allowed(forms.summary) {
        seq![ProjectionForm::Summary]
    } else {
        seq![]
    }) + (if allowed(forms.compact_code) {
        seq![ProjectionForm::CompactCode]
    } else {
        seq![]
    })
}

/// The fields a form leaves out, each attributed to policy (the field is
/// forbidden) or to the bearer limit (it was allowed but did not fit).
pub open spec fn omissions_for(form: ProjectionForm, forms: ProjectionForms) -> Seq<OmissionReason> {
    (if form != ProjectionForm::Complete {
        seq![
            if forms.attachment_references == ProjectionPermission::Allowed {
                OmissionReason::BearerLimit { field: "attachment_references" }
            } else {
                OmissionReason::Policy { field: "attachment_references" }
            },
        ]
    } else {
        seq![]
    }) + (if form == ProjectionForm::Summary || form == ProjectionForm::CompactCode {
        seq![
            if forms.details == ProjectionPermission::Allowed {
                OmissionReason::BearerLimit { field: "details" }
            } else {
                OmissionReason::Policy { field: "details" }
            },
        ]
    } else {
        seq![]
    }) + (if form == ProjectionForm::CompactCode {
        seq![
            if forms.summary == ProjectionPermission::Allowed {
                OmissionReason::BearerLimit { field: "summary" }
            } else {
                OmissionReason::Policy { field: "summary" }
            },
        ]
    } else {
        seq![]
    })
}

/// The JSON object recording one omission.
pub open spec fn omission_tree(o: OmissionReason) -> JsonTree {
    match o {
        OmissionReason::Policy { field } => JsonTree::Object(
            seq![("field"@, JsonTree::Text(field@)), ("reason"@, JsonTree::Text("policy"@))],
        ),
        OmissionReason::BearerLimit { field } => JsonTree::Object(
            seq![("field"@, JsonTree::Text(field@)), ("reason"@, JsonTree::Text("bearer_limit"@))],
        ),
    }
}

pub open spec fn form_name(form: ProjectionForm) -> &'static str {
    match form {
        ProjectionForm::Complete => "complete",
        ProjectionForm::TextOnly => "text_only",
        ProjectionForm::Summary => "summary",
        ProjectionForm::CompactCode => "compact_code",
    }
}

/// The projection body of a form: references to the source, the audience,
/// projector, creation time and omissions, then the content the form keeps.
pub open spec fn projection_tree(source: ProjectionSource, profile: ProjectionProfile, form: ProjectionForm) -> JsonTree {
    let omissions = omissions_for(form, profile.forms);
    let base = seq![
        ("audience"@, JsonTree::Text(profile.audience@)),
        ("created_at_ms"@, JsonTree::Number(JsonNumber::Unsigned(profile.created_at_ms))),
        ("form"@, JsonTree::Text(form_name(form)@)),
        ("omitted_fields"@, JsonTree::Array(omissions.map_values(|o: OmissionReason| omission_tree(o)))),
        ("projector"@, JsonTree::Text(profile.projector@)),
        ("report_reference"@, JsonTree::Text(source.report_reference@)),
        ("source_artifact_id"@, JsonTree::Text(source.artifact_id@)),
        ("source_body_hash"@, JsonTree::Text(source.body_hash@)),
    ];
    let summary_fields = seq![
        ("priority"@, JsonTree::Text(source.priority@)),
        ("reported_at_ms"@, JsonTree::Number(JsonNumber::Unsigned(source.created_at_ms))),
        ("area_class"@, JsonTree::Text(source.area_class@)),
        ("summary"@, JsonTree::Text(source.summary@)),
    ];
    let details = seq![("details"@, JsonTree::Text(source.details@))];
    let attachments = seq![
        (
            "attachment_references"@,
            JsonTree::Array(source.attachment_references@.map_values(|r: String| JsonTree::Text(r@))),
        ),
    ];
    JsonTree::Object(
        match form {
            ProjectionForm::Complete => base + summary_fields + details + attachments,
            ProjectionForm::TextOnly => base + summary_fields + details,
            ProjectionForm::Summary => base + summary_fields,
            ProjectionForm::CompactCode => base + seq![("code"@, JsonTree::Text(source.compact_code@))],
        },
    )
}

fn candidates(profile: &ProjectionProfile) -> (r: Vec<ProjectionForm>)
    ensures
        r@ == candidate_forms(profile.forms),
{
    let mut forms: Vec<ProjectionForm> = Vec::new();
    if profile.forms.details.is_allowed() && profile.forms.attachment_references.is_allowed() {
        forms.push(ProjectionForm::Complete);
    }
    if profile.forms.details.is_allowed() {
        forms.push(ProjectionForm::TextOnly);
    }
    if profile.forms.summary.is_allowed() {
        forms.push(ProjectionForm::Summary);
    }
    if profile.forms.compact_code.is_allowed() {
        forms.push(ProjectionForm::CompactCode);
    }
    assert(forms@ =~= candidate_forms(profile.forms));
    forms
}

fn omissions(form: ProjectionForm, profile: &ProjectionProfile) -> (r: Vec<OmissionReason>)
    ensures
        r@ == omissions_for(form, profile.forms),
{
    let mut values: Vec<OmissionReason> = Vec::new();
    if form != ProjectionForm::Complete {
        values.push(
            if profile.forms.attachment_references.is_allowed() {
                OmissionReason::BearerLimit { field: "attachment_references" }
            } else {
                OmissionReason::Policy { field: "attachment_references" }
            },
        );
    }
    if form == ProjectionForm::Summary || form == ProjectionForm::CompactCode {
        values.push(
            if profile.forms.details.is_allowed() {
                OmissionReason::BearerLimit { field: "details" }
            } else {
                OmissionReason::Policy { field: "details" }
            },
        );
    }
    if form == ProjectionForm::CompactCode {
        values.push(
            if profile.forms.summary.is_allowed() {
                OmissionReason::BearerLimit { field: "summary" }
            } else {
                OmissionReason::Policy { field: "summary" }
            },
        );
    }
    assert(values@ =~= omissions_for(form, profile.forms));
    values
}

fn text_value(s: &str) -> (v: JsonValue)
    ensures
        v@ == JsonTree::Text(s@),
{
    JsonValue::String(String::from_str(s))
}

fn string_value(s: &String) -> (v: JsonValue)
    ensures
        v@ == JsonTree::Text(s@),
{
    JsonValue::String(s.clone())
}

fn member(name: &str, value: JsonValue) -> (m: JsonMember)
    ensures
        m.name@ == name@,
        m.value == value,
{
    JsonMember { name: String::from_str(name), value }
}

proof fn lemma_object_tree(members: Seq<JsonMember>, v: JsonValue, expected: Seq<(Seq<char>, JsonTree)>)
    requires
        v matches JsonValue::Object(ms) && ms@ == members,
        members.len() == expected.len(),
        forall|i: int| 0 <= i < members.len() ==> (#[trigger] members[i]).name@ == expected[i].0 && members[i].value@ == expected[i].1,
    ensures
        v@ == JsonTree::Object(expected),
{
    let tree = v@->Object_0;
    assert(tree =~= expected);
}

proof fn lemma_array_tree(items: Seq<JsonValue>, v: JsonValue, expected: Seq<JsonTree>)
    requires
        v matches JsonValue::Array(xs) && xs@ == items,
        items.len() == expected.len(),
        forall|i: int| 0 <= i < items.len() ==> (#[trigger] items[i])@ == expected[i],
    ensures
        v@ == JsonTree::Array(expected),
{
    let tree = v@->Array_0;
    assert(tree =~= expected);
}

impl OmissionReason {
    /// The JSON object recording this omission.
    fn as_value(&self) -> (v: JsonValue)
        ensures
            v@ == omission_tree(*self),
    {
        let (field, reason) = match self {
            OmissionReason::Policy { field } => (*field, "policy"),
            OmissionReason::BearerLimit { field } => (*field, "bearer_limit"),
        };
        let mut members: Vec<JsonMember> = Vec::new();
        members.push(member("field", text_value(field)));
        members.push(member("reason", text_value(reason)));
        let v = JsonValue::Object(members);
        proof {
            lemma_object_tree(members@, v, omission_tree(*self)->Object_0);
        }
        v
    }
}

fn projection_value(
    source: &ProjectionSource,
    profile: &ProjectionProfile,
    form: ProjectionForm,
    omissions: &Vec<OmissionReason>,
) -> (v: JsonValue)
    requires
        omissions@ == omissions_for(form, profile.forms),
    ensures
        v@ == projection_tree(*source, *profile, form),
{
    let ghost expected = projection_tree(*source, *profile, form)->Object_0;
    let mut omitted: Vec<JsonValue> = Vec::new();
    let mut i: usize = 0;
    while i < omissions.len()
        invariant
            i <= omissions@.len(),
            omitted@.len() == i,
            forall|j: int| 0 <= j < i ==> (#[trigger] omitted@[j])@ == omission_tree(omissions@[j]),
        decreases omissions@.len() - i,
    {
        omitted.push(omissions[i].as_value());
        i = i + 1;
    }
    let omitted_value = JsonValue::Array(omitted);
    proof {
        lemma_array_tree(omitted@, omitted_value, omissions@.map_values(|o: OmissionReason| omission_tree(o)));
    }
    let form_text = match form {
        ProjectionForm::Complete => "complete",
        ProjectionForm::TextOnly => "text_only",
        ProjectionForm::Summary => "summary",
        ProjectionForm::CompactCode => "compact_code",
    };
    let mut members: Vec<JsonMember> = Vec::new();
    members.push(member("audience", string_value(&profile.audience)));
    members.push(member("created_at_ms", JsonValue::Number(JsonNumber::Unsigned(profile.created_at_ms))));
    members.push(member("form", text_value(form_text)));
    members.push(member("omitted_fields", omitted_value));
    members.push(member("projector", string_value(&profile.projector)));
    members.push(member("report_reference", string_value(&source.report_reference)));
    members.push(member("source_artifact_id", string_value(&source.artifact_id)));
    members.push(member("source_body_hash", string_value(&source.body_hash)));
    if form == ProjectionForm::CompactCode {
        members.push(member("code", string_value(&source.compact_code)));
    } else {
        members.push(member("priority", string_value(&source.priority)));
        members.push(member("reported_at_ms", JsonValue::Number(JsonNumber::Unsigned(source.created_at_ms))));
        members.push(member("area_class", string_value(&source.area_class)));
        members.push(member("summary", string_value(&source.summary)));
        if form == ProjectionForm::Complete || form == ProjectionForm::TextOnly {
            members.push(member("details", string_value(&source.details)));
        }
        if form == ProjectionForm::Complete {
            let mut references: Vec<JsonValue> = Vec::new();
            let mut k: usize = 0;
            while k < source.attachment_references.len()
                invariant
                    k <= source.attachment_references@.len(),
                    references@.len() == k,
                    forall|j: int| 0 <= j < k ==> (#[trigger] references@[j])@ == JsonTree::Text(source.attachment_references@[j]@),
                decreases source.attachment_references@.len() - k,
            {
                references.push(string_value(&source.attachment_references[k]));
                k = k + 1;
            }
            let references_value = JsonValue::Array(references);
            proof {
                lemma_array_tree(
                    references@,
                    references_value,
                    source.attachment_references@.map_values(|r: String| JsonTree::Text(r@)),
                );
            }
            members.push(member("attachment_references", references_value));
        }
    }
    let v = JsonValue::Object(members);
    proof {
        lemma_object_tree(members@, v, expected);
    }
    v
}

/// The contract form of a hash reference: `sha256:` and 64 lowercase
/// hexadecimal digits.
pub open spec fn valid_hash_text(s: Seq<char>) -> bool {
    &&& s.len() == 71
    &&& s.take(7) == seq!['s', 'h', 'a', '2', '5', '6', ':']
    &&& forall|i: int| 7 <= i < 71 ==> ('0' <= #[trigger] s[i] <= '9' || 'a' <= s[i] <= 'f')
}

fn valid_hash(value: &str) -> (r: bool)
    ensures
        r == valid_hash_text(value@),
{
    let chars = chars_of(value);
    if chars.len() != 71 {
        return false;
    }
    if !(chars[0] == 's' && chars[1] == 'h' && chars[2] == 'a' && chars[3] == '2' && chars[4] == '5' && chars[5]
        == '6' && chars[6] == ':') {
        assert(chars@.take(7) != seq!['s', 'h', 'a', '2', '5', '6', ':']) by {
            if chars@.take(7) == seq!['s', 'h', 'a', '2', '5', '6', ':'] {
                assert(chars@.take(7)[0] == chars@[0]);
                assert(chars@.take(7)[1] == chars@[1]);
                assert(chars@.take(7)[2] == chars@[2]);
                assert(chars@.take(7)[3] == chars@[3]);
                assert(chars@.take(7)[4] == chars@[4]);
                assert(chars@.take(7)[5] == chars@[5]);
                assert(chars@.take(7)[6] == chars@[6]);
            }
        }
        return false;
    }
    assert(chars@.take(7) =~= seq!['s', 'h', 'a', '2', '5', '6', ':']);
    let mut i: usize = 7;
    while i < 71
        invariant
            7 <= i <= 71,
            chars@ == value@,
            chars@.len() == 71,
            forall|j: int| 7 <= j < i ==> ('0' <= #[trigger] chars@[j] <= '9' || 'a' <= chars@[j] <= 'f'),
        decreases 71 - i,
    {
        let c = chars[i];
        if !(('0' <= c && c <= '9') || ('a' <= c && c <= 'f')) {
            proof {
                let s = value@;
                assert(s[i as int] == c);
                assert(7 <= i < 71);
                if valid_hash_text(s) {
                    assert('0' <= s[i as int] <= '9' || 'a' <= s[i as int] <= 'f');
                }
            }
            return false;
        }
        i = i + 1;
    }
    true
}

/// The form chosen among candidates: the first whose canonical bytes fit the
/// limit; a canonicalization failure stops the search.
pub open spec fn select_form(
    source: ProjectionSource,
    profile: ProjectionProfile,
    candidates: Seq<ProjectionForm>,
) -> Result<ProjectionForm, ProjectionError>
    decreases candidates.len(),
{
    if candidates.len() == 0 {
        Err(ProjectionError::NoSafeProjection)
    } else {
        match encoding(projection_tree(source, profile, candidates[0])) {
            Err(e) => Err(ProjectionError::Canonical(e)),
            Ok(bytes) => if bytes.len() <= profile.maximum_serialized_bytes {
                Ok(candidates[0])
            } else {
                select_form(source, profile, candidates.drop_first())
            },
        }
    }
}

/// The outcome of projecting a source under a profile: the chosen form or
/// why there is none.
pub open spec fn projection_outcome(source: ProjectionSource, profile: ProjectionProfile) -> Result<
    ProjectionForm,
    ProjectionError,
> {
    if profile.maximum_serialized_bytes == 0 {
        Err(ProjectionError::ZeroLimit)
    } else if !valid_hash_text(source.body_hash@) {
        Err(ProjectionError::InvalidSourceHash)
    } else {
        select_form(source, profile, candidate_forms(profile.forms))
    }
}

/// A plan is the projection of the source in the given form.
pub open spec fn plan_matches(plan: ProjectionPlan, source: ProjectionSource, profile: ProjectionProfile, form: ProjectionForm) -> bool {
    &&& plan.form == form
    &&& plan.source_artifact_id@ == source.artifact_id@
    &&& plan.source_body_hash@ == source.body_hash@
    &&& plan.projection_schema == schema_of(form)
    &&& plan.audience@ == profile.audience@
    &&& plan.projector@ == profile.projector@
    &&& encoding(projection_tree(source, profile, form)) == Ok::<Seq<u8>, CanonicalError>(plan.canonical_body@)
    &&& plan.projection_body_hash@ == hash_reference(plan.canonical_body@)
    &&& plan.omitted_fields@ == omissions_for(form, profile.forms)
    &&& plan.requires_projection_signature == profile.requires_projection_signature
}

/// Selects the richest policy-allowed projection whose canonical bytes fit
/// the bearer limit. Canonical bytes are never truncated.
pub fn project(source: &ProjectionSource, profile: &ProjectionProfile) -> (r: Result<ProjectionPlan, ProjectionError>)
    ensures
        match projection_outcome(*source, *profile) {
            Ok(form) => r matches Ok(plan) && plan_matches(plan, *source, *profile, form),
            Err(e) => r == Err::<ProjectionPlan, ProjectionError>(e),
        },
{
    if profile.maximum_serialized_bytes == 0 {
        return Err(ProjectionError::ZeroLimit);
    }
    if !valid_hash(source.body_hash.as_str()) {
        return Err(ProjectionError::InvalidSourceHash);
    }
    let forms = candidates(profile);
    let ghost all = forms@;
    let mut k: usize = 0;
    assert(all.skip(0) =~= all);
    while k < forms.len()
        invariant
            forms@ == all,
            all == candidate_forms(profile.forms),
            projection_outcome(*source, *profile) == select_form(*source, *profile, all),
            k <= all.len(),
            select_form(*source, *profile, all) == select_form(*source, *profile, all.skip(k as int)),
        decreases all.len() - k,
    {
        let form = forms[k];
        let omitted = omissions(form, profile);
        let body = projection_value(source, profile, form, &omitted);
        assert(all.skip(k as int)[0] == form);
        assert(all.skip(k as int).drop_first() =~= all.skip(k + 1));
        let canonical_body = match canonicalize(&body) {
            Ok(bytes) => bytes,
            Err(e) => {
                return Err(ProjectionError::Canonical(e));
            },
        };
        if canonical_body.len() <= profile.maximum_serialized_bytes {
            let projection_body_hash = body_hash(canonical_body.as_slice());
            return Ok(
                ProjectionPlan {
                    source_artifact_id: source.artifact_id.clone(),
                    source_body_hash: source.body_hash.clone(),
                    projection_schema: form.schema(),
                    audience: profile.audience.clone(),
                    projector: profile.projector.clone(),
                    form,
                    projection_body_hash,
                    canonical_body,
                    omitted_fields: omitted,
                    requires_projection_signature: profile.requires_projection_signature,
                },
            );
        }
        k = k + 1;
    }
    Err(ProjectionError::NoSafeProjection)
}

/// The canonical bytes of a form fit the profile's limit.
pub open spec fn fits(source: ProjectionSource, profile: ProjectionProfile, form: ProjectionForm) -> bool {
    encoding(projection_tree(source, profile, form)) matches Ok(bytes) && bytes.len() <= profile.maximum_serialized_bytes
}

/// The canonical bytes of a form exist but exceed the profile's limit.
pub open spec fn too_large(source: ProjectionSource, profile: ProjectionProfile, form: ProjectionForm) -> bool {
    encoding(projection_tree(source, profile, form)) matches Ok(bytes) && bytes.len() > profile.maximum_serialized_bytes
}

proof fn lemma_select_form(source: ProjectionSource, profile: ProjectionProfile, candidates: Seq<ProjectionForm>)
    ensures
        select_form(source, profile, candidates) matches Ok(form) ==> exists|i: int|
            0 <= i < candidates.len() && candidates[i] == form && fits(source, profile, form) && forall|j: int|
                0 <= j < i ==> too_large(source, profile, #[trigger] candidates[j]),
        select_form(source, profile, candidates) == Err::<ProjectionForm, ProjectionError>(ProjectionError::NoSafeProjection)
            ==> forall|j: int| 0 <= j < candidates.len() ==> too_large(source, profile, #[trigger] candidates[j]),
    decreases candidates.len(),
{
    if candidates.len() > 0 {
        let rest = candidates.drop_first();
        lemma_select_form(source, profile, rest);
        if let Ok(form) = select_form(source, profile, candidates) {
            if !fits(source, profile, candidates[0]) || candidates[0] != form {
                let i = choose|i: int|
                    0 <= i < rest.len() && rest[i] == form && fits(source, profile, form) && forall|j: int|
                        0 <= j < i ==> too_large(source, profile, #[trigger] rest[j]);
                assert(candidates[i + 1] == form);
                assert forall|j: int| 0 <= j < i + 1 implies too_large(source, profile, #[trigger] candidates[j]) by {
                    if j > 0 {
                        assert(candidates[j] == rest[j - 1]);
                    }
                }
            }
        }
        if select_form(source, profile, candidates) == Err::<ProjectionForm, ProjectionError>(ProjectionError::NoSafeProjection) {
            assert forall|j: int| 0 <= j < candidates.len() implies too_large(source, profile, #[trigger] candidates[j]) by {
                if j > 0 {
                    assert(candidates[j] == rest[j - 1]);
                }
            }
        }
    }
}

/// A projection always fits the bearer limit, uses a form that policy
/// allows, and is the richest allowed form: every richer allowed form was
/// too large. When no form fits, every allowed form was too large.
pub proof fn law_projection_is_richest_that_fits(source: ProjectionSource, profile: ProjectionProfile)
    ensures
        projection_outcome(source, profile) matches Ok(form) ==> exists|i: int|
            0 <= i < candidate_forms(profile.forms).len() && candidate_forms(profile.forms)[i] == form && fits(
                source,
                profile,
                form,
            ) && forall|j: int| 0 <= j < i ==> too_large(source, profile, #[trigger] candidate_forms(profile.forms)[j]),
        projection_outcome(source, profile) == Err::<ProjectionForm, ProjectionError>(ProjectionError::NoSafeProjection)
            ==> forall|j: int| 0 <= j < candidate_forms(profile.forms).len() ==> too_large(
            source,
            profile,
            #[trigger] candidate_forms(profile.forms)[j],
        ),
{
    lemma_select_form(source, profile, candidate_forms(profile.forms));
}

/// A projection references its source by artifact identifier and body hash
/// inside its canonical body, whatever form is chosen.
pub proof fn law_projection_references_source(source: ProjectionSource, profile: ProjectionProfile, form: ProjectionForm)
    ensures
        projection_tree(source, profile, form)->Object_0.contains(("source_artifact_id"@, JsonTree::Text(source.artifact_id@))),
        projection_tree(source, profile, form)->Object_0.contains(("source_body_hash"@, JsonTree::Text(source.body_hash@))),
{
    let members = projection_tree(source, profile, form)->Object_0;
    assert(members[6] == ("source_artifact_id"@, JsonTree::Text(source.artifact_id@)));
    assert(members[7] == ("source_body_hash"@, JsonTree::Text(source.body_hash@)));
}

/// Projecting the same source under the same profile twice gives the same
/// canonical bytes and the same projection hash.
pub proof fn law_projection_is_deterministic(
    source: ProjectionSource,
    profile: ProjectionProfile,
    first: ProjectionPlan,
    second: ProjectionPlan,
)
    requires
        projection_outcome(source, profile) matches Ok(form) && plan_matches(first, source, profile, form)
            && plan_matches(second, source, profile, form),
    ensures
        first.canonical_body@ == second.canonical_body@,
        first.projection_body_hash@ == second.projection_body_hash@,
        first.omitted_fields@ == second.omitted_fields@,
{
}

/// How far a form is degraded: complete 0, text only 1, summary 2, compact
/// code 3.
pub open spec fn form_rank(form: ProjectionForm) -> int {
    match form {
        ProjectionForm::Complete => 0,
        ProjectionForm::TextOnly => 1,
        ProjectionForm::Summary => 2,
        ProjectionForm::CompactCode => 3,
    }
}

proof fn lemma_candidates_by_rank(forms: ProjectionForms)
    ensures
        forall|i: int, j: int|
            0 <= i < j < candidate_forms(forms).len() ==> form_rank(#[trigger] candidate_forms(forms)[i]) < form_rank(
                #[trigger] candidate_forms(forms)[j],
            ),
{
    let allowed = |p: ProjectionPermission| p == ProjectionPermission::Allowed;
    let a = if allowed(forms.details) && allowed(forms.attachment_references) {
        seq![ProjectionForm::Complete]
    } else {
        seq![]
    };
    let b = if allowed(forms.details) {
        seq![ProjectionForm::TextOnly]
    } else {
        seq![]
    };
    let c = if allowed(forms.summary) {
        seq![ProjectionForm::Summary]
    } else {
        seq![]
    };
    let d = if allowed(forms.compact_code) {
        seq![ProjectionForm::CompactCode]
    } else {
        seq![]
    };
    let cs = candidate_forms(forms);
    assert(cs == a + b + c + d);
    assert forall|i: int| 0 <= i < cs.len() implies {
        let k = #[trigger] cs[i];
        &&& (k == ProjectionForm::Complete ==> i < a.len())
        &&& (k == ProjectionForm::TextOnly ==> a.len() <= i < a.len() + b.len())
        &&& (k == ProjectionForm::Summary ==> a.len() + b.len() <= i < a.len() + b.len() + c.len())
        &&& (k == ProjectionForm::CompactCode ==> a.len() + b.len() + c.len() <= i)
    } by {
        if i < a.len() {
            assert(cs[i] == a[i]);
        } else if i < a.len() + b.len() {
            assert(cs[i] == b[i - a.len()]);
        } else if i < a.len() + b.len() + c.len() {
            assert(cs[i] == c[i - a.len() - b.len()]);
        } else {
            assert(cs[i] == d[i - a.len() - b.len() - c.len()]);
        }
    }
}

proof fn lemma_select_form_larger_limit(
    source: ProjectionSource,
    profile: ProjectionProfile,
    larger: ProjectionProfile,
    candidates: Seq<ProjectionForm>,
)
    requires
        forall|f: ProjectionForm| projection_tree(source, larger, f) == projection_tree(source, profile, f),
        profile.maximum_serialized_bytes <= larger.maximum_serialized_bytes,
        forall|i: int, j: int|
            0 <= i < j < candidates.len() ==> form_rank(#[trigger] candidates[i]) < form_rank(#[trigger] candidates[j]),
        select_form(source, profile, candidates) is Ok,
    ensures
        select_form(source, larger, candidates) matches Ok(f) && form_rank(f) <= form_rank(
            select_form(source, profile, candidates)->Ok_0,
        ),
    decreases candidates.len(),
{
    let c0 = candidates[0];
    assert(projection_tree(source, larger, c0) == projection_tree(source, profile, c0));
    let rest = candidates.drop_first();
    if let Ok(bytes) = encoding(projection_tree(source, profile, c0)) {
        if bytes.len() > profile.maximum_serialized_bytes {
            assert forall|i: int, j: int| 0 <= i < j < rest.len() implies form_rank(#[trigger] rest[i]) < form_rank(
                #[trigger] rest[j],
            ) by {
                assert(rest[i] == candidates[i + 1] && rest[j] == candidates[j + 1]);
            }
            lemma_select_form(source, profile, rest);
            let f1 = select_form(source, profile, rest)->Ok_0;
            let k = choose|k: int| 0 <= k < rest.len() && rest[k] == f1;
            assert(rest[k] == candidates[k + 1]);
            if bytes.len() > larger.maximum_serialized_bytes {
                lemma_select_form_larger_limit(source, profile, larger, rest);
            }
        }
    }
}

/// Raising the byte limit never makes a projection poorer: for the same
/// source and profile with a larger limit, a projection that succeeded
/// still succeeds, with the same form or a richer one. So as the limit falls
/// the chosen form degrades in order, complete, text only, summary, compact
/// code, and never recovers.
pub proof fn law_larger_limit_never_degrades(source: ProjectionSource, profile: ProjectionProfile, larger: ProjectionProfile)
    requires
        larger.audience == profile.audience,
        larger.projector == profile.projector,
        larger.created_at_ms == profile.created_at_ms,
        larger.forms == profile.forms,
        profile.maximum_serialized_bytes <= larger.maximum_serialized_bytes,
        projection_outcome(source, profile) is Ok,
    ensures
        projection_outcome(source, larger) matches Ok(f) && form_rank(f) <= form_rank(
            projection_outcome(source, profile)->Ok_0,
        ),
{
    lemma_candidates_by_rank(profile.forms);
    assert forall|f: ProjectionForm| projection_tree(source, larger, f) == projection_tree(source, profile, f) by {}
    lemma_select_form_larger_limit(source, profile, larger, candidate_forms(profile.forms));
}

/// Policy permits a form: every field it discloses is allowed.
pub open spec fn form_permitted(form: ProjectionForm, forms: ProjectionForms) -> bool {
    match form {
        ProjectionForm::Complete => forms.details == ProjectionPermission::Allowed && forms.attachment_references
            == ProjectionPermission::Allowed,
        ProjectionForm::TextOnly => forms.details == ProjectionPermission::Allowed,
        ProjectionForm::Summary => forms.summary == ProjectionPermission::Allowed,
        ProjectionForm::CompactCode => forms.compact_code == ProjectionPermission::Allowed,
    }
}

proof fn lemma_candidates_permitted(forms: ProjectionForms)
    ensures
        forall|i: int|
            0 <= i < candidate_forms(forms).len() ==> form_permitted(#[trigger] candidate_forms(forms)[i], forms),
{
    let allowed = |p: ProjectionPermission| p == ProjectionPermission::Allowed;
    let a = if allowed(forms.details) && allowed(forms.attachment_references) {
        seq![ProjectionForm::Complete]
    } else {
        seq![]
    };
    let b = if allowed(forms.details) {
        seq![ProjectionForm::TextOnly]
    } else {
        seq![]
    };
    let c = if allowed(forms.summary) {
        seq![ProjectionForm::Summary]
    } else {
        seq![]
    };
    let d = if allowed(forms.compact_code) {
        seq![ProjectionForm::CompactCode]
    } else {
        seq![]
    };
    let cs = candidate_forms(forms);
    assert(cs == a + b + c + d);
    assert forall|i: int| 0 <= i < cs.len() implies form_permitted(#[trigger] cs[i], forms) by {
        if i < a.len() {
            assert(cs[i] == a[i]);
        } else if i < a.len() + b.len() {
            assert(cs[i] == b[i - a.len()]);
        } else if i < a.len() + b.len() + c.len() {
            assert(cs[i] == c[i - a.len() - b.len()]);
        } else {
            assert(cs[i] == d[i - a.len() - b.len() - c.len()]);
        }
    }
}

/// The member names of a form's projection body.
pub open spec fn member_names_of(source: ProjectionSource, profile: ProjectionProfile, form: ProjectionForm) -> Seq<
    Seq<char>,
> {
    member_keys(projection_tree(source, profile, form)->Object_0)
}

proof fn lemma_withheld_fields_absent(source: ProjectionSource, profile: ProjectionProfile, form: ProjectionForm)
    ensures
        form != ProjectionForm::Complete && form != ProjectionForm::TextOnly ==> !member_names_of(
            source,
            profile,
            form,
        ).contains("details"@),
        form != ProjectionForm::Complete ==> !member_names_of(source, profile, form).contains("attachment_references"@),
        form == ProjectionForm::CompactCode ==> !member_names_of(source, profile, form).contains("summary"@),
{
    reveal_strlit("details");
    reveal_strlit("attachment_references");
    reveal_strlit("summary");
    reveal_strlit("audience");
    reveal_strlit("created_at_ms");
    reveal_strlit("form");
    reveal_strlit("omitted_fields");
    reveal_strlit("projector");
    reveal_strlit("report_reference");
    reveal_strlit("source_artifact_id");
    reveal_strlit("source_body_hash");
    reveal_strlit("priority");
    reveal_strlit("reported_at_ms");
    reveal_strlit("area_class");
    reveal_strlit("code");
    let names = member_names_of(source, profile, form);
    let members = projection_tree(source, profile, form)->Object_0;
    assert forall|k: int| 0 <= k < names.len() implies {
        &&& (form != ProjectionForm::Complete && form != ProjectionForm::TextOnly ==> names[k] != "details"@)
        &&& (form != ProjectionForm::Complete ==> names[k] != "attachment_references"@)
        &&& (form == ProjectionForm::CompactCode ==> names[k] != "summary"@)
    } by {
        assert(names[k] == members[k].0);
        if names[k] == "details"@ {
            assert(names[k].len() == 7 && names[k][0] == 'd');
        }
        if names[k] == "attachment_references"@ {
            assert(names[k].len() == 21);
        }
        if names[k] == "summary"@ {
            assert(names[k].len() == 7 && names[k][0] == 's' && names[k][1] == 'u');
        }
    }
}

/// A projection never discloses what policy forbids: the chosen form is one
/// whose fields are all allowed, and its body holds no `details` member
/// unless details are allowed, no `attachment_references` member unless
/// both details and attachment references are allowed, and no `summary`
/// member when only the compact code was allowed to remain.
pub proof fn law_projection_respects_policy(source: ProjectionSource, profile: ProjectionProfile)
    ensures
        projection_outcome(source, profile) matches Ok(f) ==> {
            &&& form_permitted(f, profile.forms)
            &&& profile.forms.details != ProjectionPermission::Allowed ==> !member_names_of(source, profile, f).contains(
                "details"@,
            )
            &&& (profile.forms.details != ProjectionPermission::Allowed || profile.forms.attachment_references
                != ProjectionPermission::Allowed) ==> !member_names_of(source, profile, f).contains(
                "attachment_references"@,
            )
            &&& (f == ProjectionForm::CompactCode) ==> !member_names_of(source, profile, f).contains("summary"@)
        },
{
    lemma_select_form(source, profile, candidate_forms(profile.forms));
    lemma_candidates_permitted(profile.forms);
    if let Ok(f) = projection_outcome(source, profile) {
        lemma_withheld_fields_absent(source, profile, f);
    }
}

} // verus!
