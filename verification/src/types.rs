//! The data of the knowledge base: findings, their curation state, the
//! envelopes they are stored in, and the requests and answers of the three
//! layers (raw cache, curated index, agent queries).
//!
//! Scores are fixed-point integers in millionths (`1_000_000` stands for
//! `1.0`); instants are whole seconds since the Unix epoch plus nanoseconds.
use vstd::prelude::*;

verus! {

/// One unit of a score: scores are counted in millionths of `1.0`.
pub const SCORE_ONE: u64 = 1_000_000;

// ---------------------------------------------------------------------------
// Enums
// ---------------------------------------------------------------------------
/// Impact level: only HIGH and MEDIUM are stored (severity guardrail).
#[derive(Debug, Clone, Copy, PartialEq, Eq, Hash, Structural)]
pub enum Impact {
    High,
    Medium,
}

impl Impact {
    /// Numeric rank for sorting (higher = more severe).
    pub open spec fn spec_rank(&self) -> u8 {
        match self {
            Impact::High => 2,
            Impact::Medium => 1,
        }
    }

    /// Numeric rank for sorting (higher = more severe).
    #[verifier::when_used_as_spec(spec_rank)]
    pub fn rank(&self) -> (r: u8)
        ensures
            r == self.spec_rank(),
    {
        match self {
            Impact::High => 2,
            Impact::Medium => 1,
        }
    }
}

/// Curation status: set by an auditor or by an agent.
///
/// "Critical" here means "high-signal, always surface"; it is not a severity.
#[derive(Debug, Clone, Copy, PartialEq, Eq, Hash, Structural)]
pub enum CurationStatus {
    /// Fresh from the API, not yet seen by a human or agent.
    Unreviewed,
    /// Confirmed relevant by auditor or agent feedback.
    Useful,
    /// Irrelevant to this domain or pattern.
    Noise,
    /// High-signal: should always surface.
    Critical,
}

impl Default for CurationStatus {
    fn default() -> (r: Self)
        ensures
            r == CurationStatus::Unreviewed,
    {
        CurationStatus::Unreviewed
    }
}

impl CurationStatus {
    /// Numeric rank for sorting within a severity bucket; higher surfaces first.
    pub open spec fn spec_rank(&self) -> u8 {
        match self {
            CurationStatus::Critical => 3,
            CurationStatus::Useful => 2,
            CurationStatus::Unreviewed => 1,
            CurationStatus::Noise => 0,
        }
    }

    /// Numeric rank for sorting within a severity bucket; higher surfaces first.
    #[verifier::when_used_as_spec(spec_rank)]
    pub fn rank(&self) -> (r: u8)
        ensures
            r == self.spec_rank(),
    {
        match self {
            CurationStatus::Critical => 3,
            CurationStatus::Useful => 2,
            CurationStatus::Unreviewed => 1,
            CurationStatus::Noise => 0,
        }
    }

    /// Whether this status is a positive confirmation (useful or critical).
    pub open spec fn is_positive(self) -> bool {
        self == CurationStatus::Useful || self == CurationStatus::Critical
    }
}

/// How an entry entered the knowledge base.
#[derive(Debug, Clone, Copy, PartialEq, Eq, Hash, Structural)]
pub enum EntrySource {
    /// Fetched via the Solodit search.
    Solodit,
    /// Pre-seeded by an auditor.
    Seed,
    /// Added manually during an audit or review.
    Manual,
}

/// Which pipeline produced or confirmed an entry.
#[derive(Debug, Clone, Copy, PartialEq, Eq, Hash, Structural)]
pub enum Pipeline {
    DesignReview,
    AuditSandbox,
}

/// Abstraction level of a seed file.
#[derive(Debug, Clone, Copy, PartialEq, Eq, Hash, Structural)]
pub enum SeedLevel {
    Code,
    Design,
    Both,
}

impl Default for SeedLevel {
    fn default() -> (r: Self)
        ensures
            r == SeedLevel::Code,
    {
        SeedLevel::Code
    }
}

// ---------------------------------------------------------------------------
// Instants
// ---------------------------------------------------------------------------
/// An instant in UTC: seconds since the Unix epoch and the nanoseconds past them.
#[derive(Debug, Clone, Copy, PartialEq, Eq, Structural)]
pub struct Timestamp {
    pub secs: i64,
    pub nanos: u32,
}

impl Timestamp {
    /// Strictly later in time than `other`.
    pub open spec fn is_after(self, other: Timestamp) -> bool {
        self.secs > other.secs || (self.secs == other.secs && self.nanos > other.nanos)
    }

    /// Whether `self` is strictly later than `other`.
    pub fn after(&self, other: &Timestamp) -> (r: bool)
        ensures
            r == self.is_after(*other),
    {
        self.secs > other.secs || (self.secs == other.secs && self.nanos > other.nanos)
    }
}

/// A number of seconds given as `u64`, read as the signed value of its bits
/// (as the time-to-live of a cache envelope is converted to a time span).
pub open spec fn signed_secs(ttl_secs: u64) -> int {
    if ttl_secs <= i64::MAX {
        ttl_secs as int
    } else {
        ttl_secs as int - 0x1_0000_0000_0000_0000int
    }
}

/// An envelope fetched at `fetched` with this time-to-live has expired at `now`:
/// `now` is strictly later than `fetched + ttl`.
pub open spec fn expired_at(fetched: Timestamp, ttl_secs: u64, now: Timestamp) -> bool {
    now.secs > fetched.secs + signed_secs(ttl_secs) || (now.secs == fetched.secs + signed_secs(
        ttl_secs,
    ) && now.nanos > fetched.nanos)
}

// ---------------------------------------------------------------------------
// Texts
// ---------------------------------------------------------------------------
/// The characters of an optional text.
pub open spec fn opt_text(s: Option<String>) -> Option<Seq<char>> {
    match s {
        Some(t) => Some(t@),
        None => None,
    }
}

/// The characters of each text of a list.
pub open spec fn texts(v: Vec<String>) -> Seq<Seq<char>> {
    v@.map_values(|s: String| s@)
}

/// Copies an optional text.
pub fn copy_opt_text(s: &Option<String>) -> (r: Option<String>)
    ensures
        opt_text(r) == opt_text(*s),
{
    match s {
        Some(t) => Some(t.clone()),
        None => None,
    }
}

/// Copies a list of texts.
pub fn copy_texts(v: &Vec<String>) -> (r: Vec<String>)
    ensures
        texts(r) == texts(*v),
{
    let mut r: Vec<String> = Vec::new();
    let mut i: usize = 0;
    while i < v.len()
        invariant
            i <= v.len(),
            r@.len() == i,
            forall|j: int| 0 <= j < i ==> (#[trigger] r@[j])@ == v@[j]@,
        decreases v.len() - i,
    {
        r.push(v[i].clone());
        i = i + 1;
    }
    assert(texts(r) =~= texts(*v));
    r
}

// ---------------------------------------------------------------------------
// Abstraction context
// ---------------------------------------------------------------------------
/// What to look for at one abstraction level (design or code).
pub struct AbstractionContext {
    /// Concrete indicators at this abstraction level.
    pub indicators: Vec<String>,
    /// How the pattern shows at this level.
    pub description: Option<String>,
}

/// The value of an [`AbstractionContext`].
pub struct ContextModel {
    pub indicators: Seq<Seq<char>>,
    pub description: Option<Seq<char>>,
}

impl View for AbstractionContext {
    type V = ContextModel;

    open spec fn view(&self) -> ContextModel {
        ContextModel { indicators: texts(self.indicators), description: opt_text(self.description) }
    }
}

impl Clone for AbstractionContext {
    fn clone(&self) -> (r: Self)
        ensures
            r@ == self@,
    {
        AbstractionContext {
            indicators: copy_texts(&self.indicators),
            description: copy_opt_text(&self.description),
        }
    }
}

/// The value of an optional context.
pub open spec fn opt_context(c: Option<AbstractionContext>) -> Option<ContextModel> {
    match c {
        Some(x) => Some(x@),
        None => None,
    }
}

/// Copies an optional context.
pub fn copy_opt_context(c: &Option<AbstractionContext>) -> (r: Option<AbstractionContext>)
    ensures
        opt_context(r) == opt_context(*c),
{
    match c {
        Some(x) => Some(x.clone()),
        None => None,
    }
}

/// Which pipeline confirmed an entry, when, and in which context.
pub struct PipelineConfirmation {
    pub pipeline: Pipeline,
    pub confirmed_at: Timestamp,
    /// For example "confirmed in vault-design review".
    pub context: Option<String>,
}

/// The value of a [`PipelineConfirmation`].
pub struct ConfirmationModel {
    pub pipeline: Pipeline,
    pub confirmed_at: Timestamp,
    pub context: Option<Seq<char>>,
}

impl View for PipelineConfirmation {
    type V = ConfirmationModel;

    open spec fn view(&self) -> ConfirmationModel {
        ConfirmationModel {
            pipeline: self.pipeline,
            confirmed_at: self.confirmed_at,
            context: opt_text(self.context),
        }
    }
}

impl Clone for PipelineConfirmation {
    fn clone(&self) -> (r: Self)
        ensures
            r@ == self@,
    {
        PipelineConfirmation {
            pipeline: self.pipeline,
            confirmed_at: self.confirmed_at,
            context: copy_opt_text(&self.context),
        }
    }
}

/// The values of a list of confirmations.
pub open spec fn confirmations(v: Vec<PipelineConfirmation>) -> Seq<ConfirmationModel> {
    v@.map_values(|c: PipelineConfirmation| c@)
}

/// Copies a list of confirmations.
pub fn copy_confirmations(v: &Vec<PipelineConfirmation>) -> (r: Vec<PipelineConfirmation>)
    ensures
        confirmations(r) == confirmations(*v),
{
    let mut r: Vec<PipelineConfirmation> = Vec::new();
    let mut i: usize = 0;
    while i < v.len()
        invariant
            i <= v.len(),
            r@.len() == i,
            forall|j: int| 0 <= j < i ==> (#[trigger] r@[j])@ == v@[j]@,
        decreases v.len() - i,
    {
        r.push(v[i].clone());
        i = i + 1;
    }
    assert(confirmations(r) =~= confirmations(*v));
    r
}

// ---------------------------------------------------------------------------
// Core entry
// ---------------------------------------------------------------------------
/// A single finding stored in the knowledge base.
///
/// The same struct serves the raw cache, the curated index and the seeds.
pub struct KbEntry {
    /// Unique within the knowledge base: "{source}:{slug}".
    pub id: String,
    pub slug: String,
    pub title: String,
    pub impact: Impact,
    /// Quality in millionths of a point (Solodit scores run from 0 to 5 points).
    pub quality_score: i64,
    /// Audit firm name; empty for entries not from Solodit.
    pub firm: String,
    /// Protocol audited; empty for entries not from Solodit.
    pub protocol: String,
    /// For example ["Reentrancy", "ERC4626"], as Solodit gives them.
    pub tags: Vec<String>,
    /// For example "Lending", as Solodit gives it.
    pub category: String,
    pub summary: Option<String>,
    pub content: Option<String>,
    /// What to look for in design specs (design-review pipeline).
    pub design_context: Option<AbstractionContext>,
    /// What to look for in source code (audit-sandbox pipeline).
    pub code_context: Option<AbstractionContext>,
    pub source: EntrySource,
    pub curation: CurationStatus,
    /// Relevance in millionths, computed during curation (0 for raw entries).
    pub relevance_score: u64,
    /// How much agents should trust this reference, in millionths.
    pub confidence: u64,
    pub ingested_at: Timestamp,
    pub last_curated_at: Option<Timestamp>,
    pub auditor_notes: Option<String>,
    /// Which pipelines have confirmed this entry.
    pub confirmed_by: Vec<PipelineConfirmation>,
}

/// The value of a [`KbEntry`].
pub struct EntryModel {
    pub id: Seq<char>,
    pub slug: Seq<char>,
    pub title: Seq<char>,
    pub impact: Impact,
    pub quality_score: i64,
    pub firm: Seq<char>,
    pub protocol: Seq<char>,
    pub tags: Seq<Seq<char>>,
    pub category: Seq<char>,
    pub summary: Option<Seq<char>>,
    pub content: Option<Seq<char>>,
    pub design_context: Option<ContextModel>,
    pub code_context: Option<ContextModel>,
    pub source: EntrySource,
    pub curation: CurationStatus,
    pub relevance_score: u64,
    pub confidence: u64,
    pub ingested_at: Timestamp,
    pub last_curated_at: Option<Timestamp>,
    pub auditor_notes: Option<Seq<char>>,
    pub confirmed_by: Seq<ConfirmationModel>,
}

impl View for KbEntry {
    type V = EntryModel;

    open spec fn view(&self) -> EntryModel {
        EntryModel {
            id: self.id@,
            slug: self.slug@,
            title: self.title@,
            impact: self.impact,
            quality_score: self.quality_score,
            firm: self.firm@,
            protocol: self.protocol@,
            tags: texts(self.tags),
            category: self.category@,
            summary: opt_text(self.summary),
            content: opt_text(self.content),
            design_context: opt_context(self.design_context),
            code_context: opt_context(self.code_context),
            source: self.source,
            curation: self.curation,
            relevance_score: self.relevance_score,
            confidence: self.confidence,
            ingested_at: self.ingested_at,
            last_curated_at: self.last_curated_at,
            auditor_notes: opt_text(self.auditor_notes),
            confirmed_by: confirmations(self.confirmed_by),
        }
    }
}

impl Clone for KbEntry {
    fn clone(&self) -> (r: Self)
        ensures
            r@ == self@,
    {
        KbEntry {
            id: self.id.clone(),
            slug: self.slug.clone(),
            title: self.title.clone(),
            impact: self.impact,
            quality_score: self.quality_score,
            firm: self.firm.clone(),
            protocol: self.protocol.clone(),
            tags: copy_texts(&self.tags),
            category: self.category.clone(),
            summary: copy_opt_text(&self.summary),
            content: copy_opt_text(&self.content),
            design_context: copy_opt_context(&self.design_context),
            code_context: copy_opt_context(&self.code_context),
            source: self.source,
            curation: self.curation,
            relevance_score: self.relevance_score,
            confidence: self.confidence,
            ingested_at: self.ingested_at,
            last_curated_at: self.last_curated_at,
            auditor_notes: copy_opt_text(&self.auditor_notes),
            confirmed_by: copy_confirmations(&self.confirmed_by),
        }
    }
}

/// The values of a list of entries.
pub open spec fn entries(v: Vec<KbEntry>) -> Seq<EntryModel> {
    v@.map_values(|e: KbEntry| e@)
}

/// Copies a list of entries.
pub fn copy_entries(v: &Vec<KbEntry>) -> (r: Vec<KbEntry>)
    ensures
        entries(r) == entries(*v),
{
    let mut r: Vec<KbEntry> = Vec::new();
    let mut i: usize = 0;
    while i < v.len()
        invariant
            i <= v.len(),
            r@.len() == i,
            forall|j: int| 0 <= j < i ==> (#[trigger] r@[j])@ == v@[j]@,
        decreases v.len() - i,
    {
        r.push(v[i].clone());
        i = i + 1;
    }
    assert(entries(r) =~= entries(*v));
    r
}

// ---------------------------------------------------------------------------
// Raw cache envelope
// ---------------------------------------------------------------------------
/// The query parameters that produced a raw cache envelope; they also
/// determine its fingerprint.
pub struct RawQueryParams {
    pub keywords: String,
    pub impact: Vec<String>,
    pub tags: Vec<String>,
    pub protocol_categories: Vec<String>,
    pub min_quality: Option<u8>,
}

/// The value of [`RawQueryParams`].
pub struct ParamsModel {
    pub keywords: Seq<char>,
    pub impact: Seq<Seq<char>>,
    pub tags: Seq<Seq<char>>,
    pub protocol_categories: Seq<Seq<char>>,
    pub min_quality: Option<u8>,
}

impl View for RawQueryParams {
    type V = ParamsModel;

    open spec fn view(&self) -> ParamsModel {
        ParamsModel {
            keywords: self.keywords@,
            impact: texts(self.impact),
            tags: texts(self.tags),
            protocol_categories: texts(self.protocol_categories),
            min_quality: self.min_quality,
        }
    }
}

impl Clone for RawQueryParams {
    fn clone(&self) -> (r: Self)
        ensures
            r@ == self@,
    {
        RawQueryParams {
            keywords: self.keywords.clone(),
            impact: copy_texts(&self.impact),
            tags: copy_texts(&self.tags),
            protocol_categories: copy_texts(&self.protocol_categories),
            min_quality: self.min_quality,
        }
    }
}

/// A set of entries with the query that fetched them: one per fingerprint.
pub struct RawCacheEnvelope {
    pub fingerprint: String,
    pub query_params: RawQueryParams,
    pub fetched_at: Timestamp,
    pub ttl_secs: u64,
    pub entries: Vec<KbEntry>,
}

/// The value of a [`RawCacheEnvelope`].
pub struct EnvelopeModel {
    pub fingerprint: Seq<char>,
    pub query_params: ParamsModel,
    pub fetched_at: Timestamp,
    pub ttl_secs: u64,
    pub entries: Seq<EntryModel>,
}

impl View for RawCacheEnvelope {
    type V = EnvelopeModel;

    open spec fn view(&self) -> EnvelopeModel {
        EnvelopeModel {
            fingerprint: self.fingerprint@,
            query_params: self.query_params@,
            fetched_at: self.fetched_at,
            ttl_secs: self.ttl_secs,
            entries: entries(self.entries),
        }
    }
}

impl Clone for RawCacheEnvelope {
    fn clone(&self) -> (r: Self)
        ensures
            r@ == self@,
    {
        RawCacheEnvelope {
            fingerprint: self.fingerprint.clone(),
            query_params: self.query_params.clone(),
            fetched_at: self.fetched_at,
            ttl_secs: self.ttl_secs,
            entries: copy_entries(&self.entries),
        }
    }
}

impl EnvelopeModel {
    /// Expired at `now`: `now` is strictly later than `fetched_at + ttl_secs`.
    pub open spec fn expired_at(self, now: Timestamp) -> bool {
        expired_at(self.fetched_at, self.ttl_secs, now)
    }
}

impl RawCacheEnvelope {
    /// Whether this envelope has expired at `now`, that is whether `now` is
    /// strictly later than `fetched_at + ttl_secs`. The time-to-live is read
    /// as the signed value of its bits, and the sum is computed exactly.
    pub fn is_expired_at(&self, now: Timestamp) -> (r: bool)
        ensures
            r == self@.expired_at(now),
    {
        let span: i128 = if self.ttl_secs <= 0x7fff_ffff_ffff_ffff {
            self.ttl_secs as i128
        } else {
            (self.ttl_secs as i128) - 0x1_0000_0000_0000_0000i128
        };
        let deadline: i128 = (self.fetched_at.secs as i128) + span;
        let now_secs: i128 = now.secs as i128;
        now_secs > deadline || (now_secs == deadline && now.nanos > self.fetched_at.nanos)
    }

    /// Whether this envelope has expired now (by the system clock); `None`
    /// when the clock cannot be read.
    pub fn is_expired(&self) -> (r: Option<bool>)
        ensures
            r matches Some(b) ==> exists|now: Timestamp| b == #[trigger] self@.expired_at(now),
    {
        match crate::clock::current_time() {
            Some(now) => Some(self.is_expired_at(now)),
            None => None,
        }
    }
}

// ---------------------------------------------------------------------------
// Curated file and seed file
// ---------------------------------------------------------------------------
/// One curated severity bucket (high or medium).
pub struct CuratedFile {
    pub impact: Impact,
    pub last_curated_at: Timestamp,
    pub entries: Vec<KbEntry>,
}

/// The value of a [`CuratedFile`].
pub struct CuratedModel {
    pub impact: Impact,
    pub last_curated_at: Timestamp,
    pub entries: Seq<EntryModel>,
}

impl View for CuratedFile {
    type V = CuratedModel;

    open spec fn view(&self) -> CuratedModel {
        CuratedModel {
            impact: self.impact,
            last_curated_at: self.last_curated_at,
            entries: entries(self.entries),
        }
    }
}

impl Clone for CuratedFile {
    fn clone(&self) -> (r: Self)
        ensures
            r@ == self@,
    {
        CuratedFile {
            impact: self.impact,
            last_curated_at: self.last_curated_at,
            entries: copy_entries(&self.entries),
        }
    }
}

/// A seed file written by an auditor.
pub struct SeedFile {
    pub domain: String,
    pub description: String,
    /// Which abstraction level(s) this seed targets.
    pub level: SeedLevel,
    pub entries: Vec<KbEntry>,
}

/// The value of a [`SeedFile`].
pub struct SeedModel {
    pub domain: Seq<char>,
    pub description: Seq<char>,
    pub level: SeedLevel,
    pub entries: Seq<EntryModel>,
}

impl View for SeedFile {
    type V = SeedModel;

    open spec fn view(&self) -> SeedModel {
        SeedModel {
            domain: self.domain@,
            description: self.description@,
            level: self.level,
            entries: entries(self.entries),
        }
    }
}

impl Clone for SeedFile {
    fn clone(&self) -> (r: Self)
        ensures
            r@ == self@,
    {
        SeedFile {
            domain: self.domain.clone(),
            description: self.description.clone(),
            level: self.level,
            entries: copy_entries(&self.entries),
        }
    }
}

// ---------------------------------------------------------------------------
// Queries
// ---------------------------------------------------------------------------
/// A request from an agent to the curated index.
pub struct KbQuery {
    /// Filter by tags; empty means no filter.
    pub tags: Vec<String>,
    /// Filter by categories; empty means no filter.
    pub categories: Vec<String>,
    /// Keyword search in title and summary; empty means no filter.
    pub keywords: Vec<String>,
    /// Largest number of entries to return.
    pub max_entries: usize,
    /// Leave out entries whose curation is noise.
    pub exclude_noise: bool,
    /// The pipeline asking; entries with context at its level rank higher.
    pub pipeline: Option<Pipeline>,
}

impl Default for KbQuery {
    fn default() -> (r: Self)
        ensures
            r.tags@.len() == 0,
            r.categories@.len() == 0,
            r.keywords@.len() == 0,
            r.max_entries == 50,
            r.exclude_noise,
            r.pipeline is None,
    {
        KbQuery {
            tags: Vec::new(),
            categories: Vec::new(),
            keywords: Vec::new(),
            max_entries: 50,
            exclude_noise: true,
            pipeline: None,
        }
    }
}

/// The answer to a query.
pub struct KbQueryResult {
    /// Ordered: HIGH before MEDIUM, then by curation rank within each.
    pub entries: Vec<KbEntry>,
    /// Number of matching entries before truncation.
    pub total_available: usize,
    /// Whether the result was cut to the budget.
    pub truncated: bool,
}

// ---------------------------------------------------------------------------
// Feedback, curation context, statistics
// ---------------------------------------------------------------------------
/// One feedback item from an auditor review.
pub struct FeedbackItem {
    pub entry_id: String,
    pub new_status: CurationStatus,
    pub reason: Option<String>,
    /// Which pipeline gives this feedback.
    pub pipeline: Option<Pipeline>,
}

/// What the architect knows of the codebase, for relevance scoring.
pub struct CurationContext {
    /// Contract names, function names, identifiers from the source.
    pub codebase_keywords: Vec<String>,
    /// Integration types of the codebase.
    pub integration_types: Vec<String>,
    /// Protocol categories of the codebase.
    pub protocol_categories: Vec<String>,
}

impl Default for CurationContext {
    fn default() -> (r: Self)
        ensures
            r.codebase_keywords@.len() == 0,
            r.integration_types@.len() == 0,
            r.protocol_categories@.len() == 0,
    {
        CurationContext {
            codebase_keywords: Vec::new(),
            integration_types: Vec::new(),
            protocol_categories: Vec::new(),
        }
    }
}

/// Counts of a curation pass.
#[derive(Debug, Clone, Copy, PartialEq, Eq, Structural)]
pub struct CurationStats {
    pub total_processed: usize,
    pub high_count: usize,
    pub medium_count: usize,
    pub noise_skipped: usize,
}

/// Counts of an export.
#[derive(Debug, Clone, Copy, PartialEq, Eq, Structural)]
pub struct ExportStats {
    pub exported: usize,
}

} // verus!
