//! The token-ingestion gate: an external palette's token mapping must map
//! every role before anything is loaded, and a load names its bundle and
//! counts what it applied. Contrast criteria are judged at the caller.
use vstd::prelude::*;

use crate::text::concat;

verus! {

/// One role of an external palette mapped onto the token graph.
#[derive(Debug, Clone, PartialEq, Eq)]
pub struct TokenMapping {
    pub role: String,
    pub external_token: String,
    pub target_primitive: String,
    pub semantic_intermediate: Option<String>,
}

/// The report of applying a mapping.
#[derive(Debug, Clone, PartialEq, Eq)]
pub struct MappingReport {
    pub palette_id: String,
    /// (role, external token, resolved target)
    pub applied: Vec<(String, String, String)>,
    /// (role, reason)
    pub skipped: Vec<(String, String)>,
}

/// Why a palette was rejected.
#[derive(Debug, Clone, PartialEq, Eq)]
pub enum RejectionReason {
    UnmappedRole(String),
    UnresolvedSource(String),
    /// The measured-vs-required basis.
    CriterionRegression(String),
}

/// What an ingestion emits.
#[derive(Debug, Clone, PartialEq, Eq)]
pub enum IngestionEvent {
    PaletteLoaded { bundle_id: String, artifact_class: String, named_graph: String, triple_count: usize },
    PaletteRejected { bundle_id: String, artifact_class: String, reason: RejectionReason },
}

/// Why an ingestion could not be judged.
#[derive(Debug, Clone, PartialEq, Eq)]
pub enum IngestionError {
    SchemaViolation(String),
    SchemaInvalid(String),
    SchemaMissing(String),
    ResolutionFailed(String),
    ParseError(String),
}

/// serde_json's JSON value, carried through as an opaque value.
#[verifier::external_type_specification]
#[verifier::external_body]
pub struct ExJsonValue(serde_json::Value);

/// Whether a text is JSON that serde_json accepts.
pub uninterp spec fn json_parses(text: Seq<char>) -> bool;

/// Whether the JSON text `schema` is a schema that jsonschema compiles.
pub uninterp spec fn schema_compiles(schema: Seq<char>) -> bool;

/// Whether the JSON text `instance` is valid against the compiled schema
/// of the JSON text `schema`.
pub uninterp spec fn schema_accepts(schema: Seq<char>, instance: Seq<char>) -> bool;

/// A parsed JSON document, remembering the text it was parsed from.
pub struct JsonDoc {
    value: serde_json::Value,
    text: Ghost<Seq<char>>,
}

impl View for JsonDoc {
    type V = Seq<char>;

    /// The text the document was parsed from.
    closed spec fn view(&self) -> Seq<char> {
        self.text@
    }
}

/// `serde_json::from_str` into a `serde_json::Value`: succeeds exactly when
/// the text is JSON, a property of the text. The error is carried as its
/// display text.
#[verifier::external_body]
fn json_from_str(text: &str) -> (r: Result<serde_json::Value, String>)
    ensures
        r is Ok <==> json_parses(text@),
{
    serde_json::from_str(text).map_err(|e| e.to_string())
}

/// `jsonschema::Validator::new`: succeeds exactly when the schema compiles
/// (with no remote reference resolution, a property of the schema's text);
/// the validator itself is dropped. The error is carried as its display text.
#[verifier::external_body]
fn schema_compile(schema: &JsonDoc) -> (r: Result<(), String>)
    ensures
        r is Ok <==> schema_compiles(schema@),
{
    jsonschema::Validator::new(&schema.value).map(|_| ()).map_err(|e| e.to_string())
}

/// `jsonschema::validate`: whether the instance is valid against the
/// schema. It panics on a schema that does not compile, which `requires`
/// leaves out.
#[verifier::external_body]
fn schema_validate(schema: &JsonDoc, instance: &JsonDoc) -> (b: bool)
    requires
        schema_compiles(schema@),
    ensures
        b == schema_accepts(schema@, instance@),
{
    jsonschema::validate(&schema.value, &instance.value).is_ok()
}

impl JsonDoc {
    /// Parse a JSON text; fails exactly when serde_json rejects it.
    pub fn parse(text: &str) -> (r: Result<JsonDoc, String>)
        ensures
            r is Ok <==> json_parses(text@),
            r matches Ok(d) ==> d@ == text@,
    {
        match json_from_str(text) {
            Ok(value) => Ok(JsonDoc { value, text: Ghost(text@) }),
            Err(e) => Err(e),
        }
    }
}

/// The seam check: the mapping must be valid against the pinned ingestion
/// schema. With no schema at the seam the check fails as missing; a schema
/// that is not JSON, or does not compile, is invalid; a mapping that is not
/// JSON does not parse; a mapping the schema rejects violates the seam.
pub fn check_seam(schema: Option<&str>, mapping_json: &str) -> (r: Result<(), IngestionError>)
    ensures
        match schema {
            None => r matches Err(IngestionError::SchemaMissing(_)),
            Some(s) => if !json_parses(s@) || !schema_compiles(s@) {
                r matches Err(IngestionError::SchemaInvalid(_))
            } else if !json_parses(mapping_json@) {
                r matches Err(IngestionError::ParseError(_))
            } else if !schema_accepts(s@, mapping_json@) {
                r matches Err(IngestionError::SchemaViolation(_))
            } else {
                r is Ok
            },
        },
{
    let text = match schema {
        None => {
            return Err(
                IngestionError::SchemaMissing(
                    String::from_str("token-ingestion.schema.json not found at seam"),
                ),
            );
        },
        Some(t) => t,
    };
    let doc = match JsonDoc::parse(text) {
        Err(e) => {
            return Err(IngestionError::SchemaInvalid(concat("Invalid pinned schema: ", e.as_str())));
        },
        Ok(d) => d,
    };
    match schema_compile(&doc) {
        Err(e) => {
            return Err(IngestionError::SchemaInvalid(concat("Schema compilation failed: ", e.as_str())));
        },
        Ok(()) => {},
    }
    let instance = match JsonDoc::parse(mapping_json) {
        Err(_) => {
            return Err(IngestionError::ParseError(String::from_str("mapping_json invalid")));
        },
        Ok(d) => d,
    };
    if !schema_validate(&doc, &instance) {
        return Err(IngestionError::SchemaViolation(String::from_str("Mapping fails pinned contract version")));
    }
    Ok(())
}

/// A role is unmapped when it names neither a primitive nor a semantic
/// intermediate.
pub open spec fn unmapped(m: TokenMapping) -> bool {
    m.target_primitive@.len() == 0 && m.semantic_intermediate is None
}

/// The applied (role, external token, target) triples among the first `k`
/// mappings, in order.
pub open spec fn applied_upto(ms: Seq<TokenMapping>, k: int) -> Seq<(Seq<char>, Seq<char>, Seq<char>)>
    decreases k,
{
    if k <= 0 {
        Seq::empty()
    } else if unmapped(ms[k - 1]) {
        applied_upto(ms, k - 1)
    } else {
        applied_upto(ms, k - 1).push((ms[k - 1].role@, ms[k - 1].external_token@, ms[k - 1].target_primitive@))
    }
}

/// The roles of the unmapped mappings among the first `k`, in order.
pub open spec fn skipped_upto(ms: Seq<TokenMapping>, k: int) -> Seq<Seq<char>>
    decreases k,
{
    if k <= 0 {
        Seq::empty()
    } else if unmapped(ms[k - 1]) {
        skipped_upto(ms, k - 1).push(ms[k - 1].role@)
    } else {
        skipped_upto(ms, k - 1)
    }
}

/// Split mappings into the applied ones and the skipped (unmapped) roles,
/// each skipped with the reason `unmapped-role`.
pub fn partition_mappings(mappings: &Vec<TokenMapping>) -> (r: (
    Vec<(String, String, String)>,
    Vec<(String, String)>,
))
    ensures
        r.0@.map_values(|t: (String, String, String)| (t.0@, t.1@, t.2@)) == applied_upto(
            mappings@,
            mappings@.len() as int,
        ),
        r.1@.map_values(|t: (String, String)| t.0@) == skipped_upto(mappings@, mappings@.len() as int),
        forall|i: int| 0 <= i < r.1@.len() ==> (#[trigger] r.1@[i]).1@ == "unmapped-role"@,
{
    let mut applied: Vec<(String, String, String)> = Vec::new();
    let mut skipped: Vec<(String, String)> = Vec::new();
    let mut k: usize = 0;
    while k < mappings.len()
        invariant
            k <= mappings@.len(),
            applied@.map_values(|t: (String, String, String)| (t.0@, t.1@, t.2@)) == applied_upto(
                mappings@,
                k as int,
            ),
            skipped@.map_values(|t: (String, String)| t.0@) == skipped_upto(mappings@, k as int),
            forall|i: int| 0 <= i < skipped@.len() ==> (#[trigger] skipped@[i]).1@ == "unmapped-role"@,
        decreases mappings@.len() - k,
    {
        let m = &mappings[k];
        let ghost a0 = applied@.map_values(|t: (String, String, String)| (t.0@, t.1@, t.2@));
        let ghost s0 = skipped@.map_values(|t: (String, String)| t.0@);
        if m.target_primitive.as_str().unicode_len() == 0 && m.semantic_intermediate.is_none() {
            skipped.push((m.role.clone(), String::from_str("unmapped-role")));
            assert(skipped@.map_values(|t: (String, String)| t.0@) =~= s0.push(m.role@));
        } else {
            applied.push((m.role.clone(), m.external_token.clone(), m.target_primitive.clone()));
            assert(applied@.map_values(|t: (String, String, String)| (t.0@, t.1@, t.2@)) =~= a0.push(
                (m.role@, m.external_token@, m.target_primitive@),
            ));
        }
        k = k + 1;
    }
    (applied, skipped)
}

/// Strings joined by a separator.
pub open spec fn join(parts: Seq<Seq<char>>, sep: Seq<char>) -> Seq<char>
    decreases parts.len(),
{
    if parts.len() == 0 {
        Seq::empty()
    } else if parts.len() == 1 {
        parts[0]
    } else {
        join(parts.drop_last(), sep) + sep + parts.last()
    }
}

/// The roles of skipped mappings, joined by commas.
pub fn join_roles(skipped: &Vec<(String, String)>) -> (r: String)
    ensures
        r@ == join(skipped@.map_values(|t: (String, String)| t.0@), ","@),
{
    let ghost roles = skipped@.map_values(|t: (String, String)| t.0@);
    let mut r = String::new();
    let mut k: usize = 0;
    while k < skipped.len()
        invariant
            k <= skipped@.len(),
            roles == skipped@.map_values(|t: (String, String)| t.0@),
            r@ == join(roles.take(k as int), ","@),
        decreases skipped@.len() - k,
    {
        assert(roles.take(k + 1).drop_last() =~= roles.take(k as int));
        if k > 0 {
            r.append(",");
        }
        r.append(skipped[k].0.as_str());
        k = k + 1;
        assert(roles.take(k as int).last() == skipped@[k - 1].0@);
        if k == 1 {
            assert(roles.take(0) =~= Seq::<Seq<char>>::empty());
        }
    }
    assert(roles.take(skipped@.len() as int) =~= roles);
    r
}

/// The rejection of a palette with unmapped roles: the palette, its class,
/// and the unmapped roles joined by commas.
pub fn unmapped_role_rejection(palette_id: &str, artifact_class: &str, skipped: &Vec<(String, String)>) -> (r:
    IngestionEvent)
    ensures
        match r {
            IngestionEvent::PaletteRejected {
                bundle_id,
                artifact_class: c,
                reason: RejectionReason::UnmappedRole(roles),
            } => bundle_id@ == palette_id@ && c@ == artifact_class@ && roles@ == join(
                skipped@.map_values(|t: (String, String)| t.0@),
                ","@,
            ),
            _ => false,
        },
{
    IngestionEvent::PaletteRejected {
        bundle_id: String::from_str(palette_id),
        artifact_class: String::from_str(artifact_class),
        reason: RejectionReason::UnmappedRole(join_roles(skipped)),
    }
}

/// The bundle id of an ingested palette: `<class>-<palette>-v1`.
pub open spec fn palette_bundle_id(artifact_class: Seq<char>, palette_id: Seq<char>) -> Seq<char> {
    artifact_class + "-"@ + palette_id + "-v1"@
}

/// The load of a palette whose mapping applied `applied` roles: one triple
/// per applied role, into the requested graph.
pub fn palette_loaded(palette_id: &str, artifact_class: &str, named_graph: &str, applied: usize) -> (r:
    IngestionEvent)
    ensures
        match r {
            IngestionEvent::PaletteLoaded { bundle_id, artifact_class: c, named_graph: g, triple_count } =>
                bundle_id@ == palette_bundle_id(artifact_class@, palette_id@) && c@ == artifact_class@
                && g@ == named_graph@ && triple_count == applied,
            _ => false,
        },
{
    let mut id = concat(artifact_class, "-");
    id.append(palette_id);
    id.append("-v1");
    IngestionEvent::PaletteLoaded {
        bundle_id: id,
        artifact_class: String::from_str(artifact_class),
        named_graph: String::from_str(named_graph),
        triple_count: applied,
    }
}

/// The verdict on a palette whose mapping is `mappings` and whose contrast
/// criteria were judged `criteria`: a palette with an unmapped role is
/// rejected naming those roles; else a criterion regression rejects it with
/// its basis; else it loads, one triple per mapped role.
pub open spec fn ingestion_outcome_spec(
    palette_id: Seq<char>,
    artifact_class: Seq<char>,
    named_graph: Seq<char>,
    mappings: Seq<TokenMapping>,
    criteria: Result<(), RejectionReason>,
    outcome: IngestionEvent,
) -> bool {
    let skipped = skipped_upto(mappings, mappings.len() as int);
    if skipped.len() > 0 {
        outcome matches IngestionEvent::PaletteRejected {
            bundle_id,
            artifact_class: c,
            reason: RejectionReason::UnmappedRole(roles),
        } && bundle_id@ == palette_id && c@ == artifact_class && roles@ == join(skipped, ","@)
    } else if criteria is Err {
        outcome matches IngestionEvent::PaletteRejected { bundle_id, artifact_class: c, reason }
            && bundle_id@ == palette_id && c@ == artifact_class && Err::<(), RejectionReason>(reason)
            == criteria
    } else {
        outcome matches IngestionEvent::PaletteLoaded { bundle_id, artifact_class: c, named_graph: g, triple_count }
            && bundle_id@ == palette_bundle_id(artifact_class, palette_id) && c@ == artifact_class
            && g@ == named_graph && triple_count == mappings.len()
    }
}

/// Judge a palette: the unmapped-role check first, then the contrast
/// criteria judged at the caller, then the load.
pub fn ingestion_outcome(
    palette_id: &str,
    artifact_class: &str,
    named_graph: &str,
    mappings: &Vec<TokenMapping>,
    criteria: Result<(), RejectionReason>,
) -> (r: IngestionEvent)
    ensures
        ingestion_outcome_spec(palette_id@, artifact_class@, named_graph@, mappings@, criteria, r),
{
    let (applied, skipped) = partition_mappings(mappings);
    proof {
        lemma_partition_accounts_for_all(mappings@, mappings@.len() as int);
    }
    assert(skipped@.len() == skipped@.map_values(|t: (String, String)| t.0@).len());
    assert(applied@.len() == applied@.map_values(|t: (String, String, String)| (t.0@, t.1@, t.2@)).len());
    if skipped.len() > 0 {
        return unmapped_role_rejection(palette_id, artifact_class, &skipped);
    }
    match criteria {
        Err(reason) => IngestionEvent::PaletteRejected {
            bundle_id: String::from_str(palette_id),
            artifact_class: String::from_str(artifact_class),
            reason,
        },
        Ok(()) => palette_loaded(palette_id, artifact_class, named_graph, applied.len()),
    }
}

/// A mapping leaves nothing skipped exactly when every role is mapped; the
/// applied and skipped mappings together account for every mapping.
pub proof fn lemma_partition_accounts_for_all(ms: Seq<TokenMapping>, k: int)
    requires
        0 <= k <= ms.len(),
    ensures
        applied_upto(ms, k).len() + skipped_upto(ms, k).len() == k,
        skipped_upto(ms, k).len() == 0 <==> forall|i: int| 0 <= i < k ==> !unmapped(#[trigger] ms[i]),
    decreases k,
{
    if k > 0 {
        lemma_partition_accounts_for_all(ms, k - 1);
    }
}

} // verus!
