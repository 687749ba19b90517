//! The contents of a knowledge-base directory: raw cache files under
//! `raw/`, the curated severity files under `curated/`, and seed files under
//! `seeds/` and its `code/`, `design/` and `shared/` subdirectories.
//!
//! A [`Store`] holds these files as values. A file that exists but does not
//! hold valid JSON of its kind is kept as malformed: reading it fails, and
//! listings skip it.
use vstd::prelude::*;

use crate::text::{
    concat_texts, join_path, joined_path, lowercase, replace_char, replaced, same_text, to_lowercase,
};
use crate::types::{
    entries, texts, CuratedFile, CuratedModel, EntryModel, EnvelopeModel, Impact, KbEntry,
    RawCacheEnvelope, SeedFile, SeedLevel, SeedModel,
};

verus! {

/// Time-to-live of new raw cache envelopes when none is configured.
pub const DEFAULT_TTL_SECS: u64 = 300;

// ---------------------------------------------------------------------------
// Files
// ---------------------------------------------------------------------------
/// A raw cache file: its name without `.json` (a fingerprint) and, unless the
/// file is malformed, its envelope.
pub struct RawFile {
    pub name: String,
    pub envelope: Option<RawCacheEnvelope>,
}

/// The value of a [`RawFile`].
pub struct RawFileModel {
    pub name: Seq<char>,
    pub envelope: Option<EnvelopeModel>,
}

impl View for RawFile {
    type V = RawFileModel;

    open spec fn view(&self) -> RawFileModel {
        RawFileModel {
            name: self.name@,
            envelope: match self.envelope {
                Some(e) => Some(e@),
                None => None,
            },
        }
    }
}

/// The state of a curated severity file.
pub enum CuratedSlot {
    /// No such file.
    Missing,
    /// The file does not hold a valid curated file.
    Malformed,
    Present(CuratedFile),
}

/// The value of a [`CuratedSlot`].
pub enum SlotModel {
    Missing,
    Malformed,
    Present(CuratedModel),
}

impl View for CuratedSlot {
    type V = SlotModel;

    open spec fn view(&self) -> SlotModel {
        match self {
            CuratedSlot::Missing => SlotModel::Missing,
            CuratedSlot::Malformed => SlotModel::Malformed,
            CuratedSlot::Present(f) => SlotModel::Present(f@),
        }
    }
}

/// The directory of a seed file.
#[derive(Debug, Clone, Copy, PartialEq, Eq, Structural)]
pub enum SeedDir {
    /// `seeds/code/`
    Code,
    /// `seeds/design/`
    Design,
    /// `seeds/shared/`
    Shared,
    /// `seeds/` itself (older layout).
    Root,
}

impl SeedDir {
    /// The subdirectory of `seeds/` that holds seeds of a level.
    pub open spec fn of_level(level: SeedLevel) -> SeedDir {
        match level {
            SeedLevel::Code => SeedDir::Code,
            SeedLevel::Design => SeedDir::Design,
            SeedLevel::Both => SeedDir::Shared,
        }
    }
}

/// A seed file: its directory, its name without `.json`, and, unless the file
/// is malformed, its contents.
pub struct SeedRecord {
    pub dir: SeedDir,
    pub name: String,
    pub seed: Option<SeedFile>,
}

/// The value of a [`SeedRecord`].
pub struct SeedRecordModel {
    pub dir: SeedDir,
    pub name: Seq<char>,
    pub seed: Option<SeedModel>,
}

impl View for SeedRecord {
    type V = SeedRecordModel;

    open spec fn view(&self) -> SeedRecordModel {
        SeedRecordModel {
            dir: self.dir,
            name: self.name@,
            seed: match self.seed {
                Some(s) => Some(s@),
                None => None,
            },
        }
    }
}

/// Errors of the knowledge base.
#[derive(Debug)]
pub enum KbError {
    /// The file at this path does not hold valid JSON of its kind.
    Malformed(String),
    /// The system clock reads before the Unix epoch (or too far beyond it).
    ClockUnavailable,
}

/// The result is the error of an unreadable system clock.
pub open spec fn clock_failed<T>(r: Result<T, KbError>) -> bool {
    r matches Err(KbError::ClockUnavailable)
}

// ---------------------------------------------------------------------------
// The model of a store
// ---------------------------------------------------------------------------
/// The value of a [`Store`].
pub struct StoreModel {
    pub base_dir: Seq<char>,
    /// Time-to-live of envelopes written by [`crate::raw::RawCache::ingest`].
    pub raw_ttl_secs: u64,
    /// Raw cache files in listing order; names are distinct.
    pub raw: Seq<RawFileModel>,
    pub high: SlotModel,
    pub medium: SlotModel,
    /// Seed files in listing order; (directory, name) pairs are distinct.
    pub seeds: Seq<SeedRecordModel>,
}

/// The names of the raw files are distinct.
pub open spec fn raw_names_distinct(raw: Seq<RawFileModel>) -> bool {
    forall|i: int, j: int| 0 <= i < raw.len() && 0 <= j < raw.len() && i != j ==> #[trigger] raw[i].name != #[trigger] raw[j].name
}

/// The seed files have distinct places.
pub open spec fn seed_places_distinct(seeds: Seq<SeedRecordModel>) -> bool {
    forall|i: int, j: int|
        0 <= i < seeds.len() && 0 <= j < seeds.len() && i != j ==> !(#[trigger] seeds[i].dir == #[trigger] seeds[j].dir && seeds[i].name == seeds[j].name)
}

/// The position of the raw file with this name, or -1.
pub open spec fn raw_position(raw: Seq<RawFileModel>, name: Seq<char>) -> int
    decreases raw.len(),
{
    if raw.len() == 0 {
        -1
    } else if raw.last().name == name {
        raw.len() - 1
    } else {
        raw_position(raw.drop_last(), name)
    }
}

/// The position of the seed file at this place, or -1.
pub open spec fn seed_position(seeds: Seq<SeedRecordModel>, dir: SeedDir, name: Seq<char>) -> int
    decreases seeds.len(),
{
    if seeds.len() == 0 {
        -1
    } else if seeds.last().dir == dir && seeds.last().name == name {
        seeds.len() - 1
    } else {
        seed_position(seeds.drop_last(), dir, name)
    }
}

/// The envelopes of the well-formed raw files, in listing order.
pub open spec fn parsed_envelopes(raw: Seq<RawFileModel>) -> Seq<EnvelopeModel>
    decreases raw.len(),
{
    if raw.len() == 0 {
        seq![]
    } else {
        parsed_envelopes(raw.drop_last()) + match raw.last().envelope {
            Some(e) => seq![e],
            None => seq![],
        }
    }
}

/// The contents of the well-formed seed files of one directory, in listing order.
pub open spec fn parsed_seeds_in(seeds: Seq<SeedRecordModel>, dir: SeedDir) -> Seq<SeedModel>
    decreases seeds.len(),
{
    if seeds.len() == 0 {
        seq![]
    } else {
        parsed_seeds_in(seeds.drop_last(), dir) + match seeds.last().seed {
            Some(s) => if seeds.last().dir == dir {
                seq![s]
            } else {
                seq![]
            },
            None => seq![],
        }
    }
}

/// The names of the seed files of one directory, in listing order.
pub open spec fn seed_names_in(seeds: Seq<SeedRecordModel>, dir: SeedDir) -> Seq<Seq<char>>
    decreases seeds.len(),
{
    if seeds.len() == 0 {
        seq![]
    } else {
        seed_names_in(seeds.drop_last(), dir) + if seeds.last().dir == dir {
            seq![seeds.last().name]
        } else {
            seq![]
        }
    }
}

/// The position of the first entry with this id, or -1.
pub open spec fn first_with_id(es: Seq<EntryModel>, id: Seq<char>) -> int
    decreases es.len(),
{
    if es.len() == 0 {
        -1
    } else if first_with_id(es.drop_last(), id) >= 0 {
        first_with_id(es.drop_last(), id)
    } else if es.last().id == id {
        es.len() - 1
    } else {
        -1
    }
}

/// Where an entry is found across the curated files.
pub enum Located {
    /// A curated file that had to be read is malformed.
    Failed,
    /// No curated file holds the entry.
    Absent,
    /// The entry is at this position of this severity file.
    At(Impact, int),
}

/// The text of a `.json` file name.
pub open spec fn json_name(name: Seq<char>) -> Seq<char> {
    name + ".json"@
}

/// The name of a curated severity file.
pub open spec fn curated_name(impact: Impact) -> Seq<char> {
    match impact {
        Impact::High => "high.json"@,
        Impact::Medium => "medium.json"@,
    }
}

/// The name of a seed subdirectory.
pub open spec fn seed_dir_name(dir: SeedDir) -> Seq<char> {
    match dir {
        SeedDir::Code => "code"@,
        SeedDir::Design => "design"@,
        SeedDir::Shared => "shared"@,
        SeedDir::Root => ""@,
    }
}

/// The file name of a seed for a domain: lowercased, spaces made hyphens.
pub open spec fn seed_file_name(domain: Seq<char>) -> Seq<char> {
    replaced(lowercase(domain), ' ', '-')
}

impl StoreModel {
    /// The invariant of a store: file names are distinct in each directory.
    pub open spec fn wf(self) -> bool {
        raw_names_distinct(self.raw) && seed_places_distinct(self.seeds)
    }

    /// The slot of a curated severity file.
    pub open spec fn slot(self, impact: Impact) -> SlotModel {
        match impact {
            Impact::High => self.high,
            Impact::Medium => self.medium,
        }
    }

    /// This store with the slot of a severity replaced.
    pub open spec fn with_slot(self, impact: Impact, slot: SlotModel) -> StoreModel {
        match impact {
            Impact::High => StoreModel { high: slot, ..self },
            Impact::Medium => StoreModel { medium: slot, ..self },
        }
    }

    /// Where the entry with this id is, searching the high file then the
    /// medium file; reading a malformed file fails.
    pub open spec fn locate(self, id: Seq<char>) -> Located {
        match self.high {
            SlotModel::Malformed => Located::Failed,
            SlotModel::Present(f) if first_with_id(f.entries, id) >= 0 => Located::At(
                Impact::High,
                first_with_id(f.entries, id),
            ),
            _ => match self.medium {
                SlotModel::Malformed => Located::Failed,
                SlotModel::Present(f) if first_with_id(f.entries, id) >= 0 => Located::At(
                    Impact::Medium,
                    first_with_id(f.entries, id),
                ),
                _ => Located::Absent,
            },
        }
    }

    /// This store after replacing entry `i` of the curated file of a
    /// severity by `e`, and writing the file back to the slot that its own
    /// impact names.
    pub open spec fn with_entry_replaced(self, impact: Impact, i: int, e: EntryModel) -> StoreModel {
        match self.slot(impact) {
            SlotModel::Present(f) => self.with_slot(
                f.impact,
                SlotModel::Present(CuratedModel { entries: f.entries.update(i, e), ..f }),
            ),
            _ => self,
        }
    }

    /// The entries of a curated severity file that is present.
    pub open spec fn curated_entries(self, impact: Impact) -> Seq<EntryModel> {
        match self.slot(impact) {
            SlotModel::Present(f) => f.entries,
            _ => seq![],
        }
    }

    /// The raw file with this name, if any.
    pub open spec fn raw_file(self, name: Seq<char>) -> Option<RawFileModel> {
        if raw_position(self.raw, name) >= 0 {
            Some(self.raw[raw_position(self.raw, name)])
        } else {
            None
        }
    }

    /// This store with the raw file of this name holding `envelope`: the file
    /// is replaced in place, or added at the end.
    pub open spec fn with_raw(self, name: Seq<char>, envelope: Option<EnvelopeModel>) -> StoreModel {
        let file = RawFileModel { name, envelope };
        let p = raw_position(self.raw, name);
        StoreModel {
            raw: if p >= 0 {
                self.raw.update(p, file)
            } else {
                self.raw.push(file)
            },
            ..self
        }
    }

    /// This store without the raw file of this name.
    pub open spec fn without_raw(self, name: Seq<char>) -> StoreModel {
        let p = raw_position(self.raw, name);
        StoreModel {
            raw: if p >= 0 {
                self.raw.remove(p)
            } else {
                self.raw
            },
            ..self
        }
    }

    /// This store with the seed file at this place holding `seed`: replaced in
    /// place, or added at the end.
    pub open spec fn with_seed(self, dir: SeedDir, name: Seq<char>, seed: Option<SeedModel>) -> StoreModel {
        let rec = SeedRecordModel { dir, name, seed };
        let p = seed_position(self.seeds, dir, name);
        StoreModel {
            seeds: if p >= 0 {
                self.seeds.update(p, rec)
            } else {
                self.seeds.push(rec)
            },
            ..self
        }
    }

    /// All parsed seed files: those of `code/`, `design/`, `shared/`, then `seeds/`.
    pub open spec fn all_seeds(self) -> Seq<SeedModel> {
        parsed_seeds_in(self.seeds, SeedDir::Code) + parsed_seeds_in(self.seeds, SeedDir::Design)
            + parsed_seeds_in(self.seeds, SeedDir::Shared) + parsed_seeds_in(
            self.seeds,
            SeedDir::Root,
        )
    }
}

/// The path of a raw cache file: `{base}/raw/{name}.json`.
pub open spec fn raw_path_of(base: Seq<char>, name: Seq<char>) -> Seq<char> {
    joined_path(joined_path(base, "raw"@), json_name(name))
}

/// The path of a curated file: `{base}/curated/{high,medium}.json`.
pub open spec fn curated_path_of(base: Seq<char>, impact: Impact) -> Seq<char> {
    joined_path(joined_path(base, "curated"@), curated_name(impact))
}

/// The path of a seed file: `{base}/seeds/{dir}/{name}.json`, or
/// `{base}/seeds/{name}.json` for the seeds directory itself.
pub open spec fn seed_path_of(base: Seq<char>, dir: SeedDir, name: Seq<char>) -> Seq<char> {
    let seeds = joined_path(base, "seeds"@);
    match dir {
        SeedDir::Root => joined_path(seeds, json_name(name)),
        _ => joined_path(joined_path(seeds, seed_dir_name(dir)), json_name(name)),
    }
}

/// The paths of the seed files of one directory, in listing order.
pub open spec fn seed_paths_in(base: Seq<char>, seeds: Seq<SeedRecordModel>, dir: SeedDir) -> Seq<Seq<char>> {
    seed_names_in(seeds, dir).map_values(|n: Seq<char>| seed_path_of(base, dir, n))
}

// ---------------------------------------------------------------------------
// The store
// ---------------------------------------------------------------------------
/// The files of a knowledge-base directory.
pub struct Store {
    base_dir: String,
    raw_ttl_secs: u64,
    raw: Vec<RawFile>,
    high: CuratedSlot,
    medium: CuratedSlot,
    seeds: Vec<SeedRecord>,
}

impl View for Store {
    type V = StoreModel;

    closed spec fn view(&self) -> StoreModel {
        StoreModel {
            base_dir: self.base_dir@,
            raw_ttl_secs: self.raw_ttl_secs,
            raw: self.raw@.map_values(|f: RawFile| f@),
            high: self.high@,
            medium: self.medium@,
            seeds: self.seeds@.map_values(|s: SeedRecord| s@),
        }
    }
}

/// The position of a name is its last occurrence, or -1 when it does not occur.
pub(crate) proof fn lemma_raw_position(raw: Seq<RawFileModel>, name: Seq<char>)
    ensures
        -1 <= raw_position(raw, name) < raw.len(),
        raw_position(raw, name) >= 0 ==> raw[raw_position(raw, name)].name == name,
        raw_position(raw, name) < 0 ==> forall|i: int| 0 <= i < raw.len() ==> raw[i].name != name,
        forall|i: int| raw_position(raw, name) < i < raw.len() ==> raw[i].name != name,
    decreases raw.len(),
{
    if raw.len() > 0 {
        let d = raw.drop_last();
        lemma_raw_position(d, name);
        assert(forall|i: int| 0 <= i < d.len() ==> d[i] == raw[i]);
    }
}

pub(crate) proof fn lemma_raw_position_unique(raw: Seq<RawFileModel>, name: Seq<char>, i: int)
    requires
        raw_names_distinct(raw),
        0 <= i < raw.len(),
        raw[i].name == name,
    ensures
        raw_position(raw, name) == i,
{
    lemma_raw_position(raw, name);
}

/// The position of a place is its last occurrence, or -1 when it does not occur.
pub(crate) proof fn lemma_seed_position(seeds: Seq<SeedRecordModel>, dir: SeedDir, name: Seq<char>)
    ensures
        -1 <= seed_position(seeds, dir, name) < seeds.len(),
        seed_position(seeds, dir, name) >= 0 ==> seeds[seed_position(seeds, dir, name)].dir == dir
            && seeds[seed_position(seeds, dir, name)].name == name,
        seed_position(seeds, dir, name) < 0 ==> forall|i: int|
            0 <= i < seeds.len() ==> !(seeds[i].dir == dir && seeds[i].name == name),
        forall|i: int|
            seed_position(seeds, dir, name) < i < seeds.len() ==> !(seeds[i].dir == dir
                && seeds[i].name == name),
    decreases seeds.len(),
{
    if seeds.len() > 0 {
        let d = seeds.drop_last();
        lemma_seed_position(d, dir, name);
        assert(forall|i: int| 0 <= i < d.len() ==> d[i] == seeds[i]);
    }
}

proof fn lemma_seed_position_unique(seeds: Seq<SeedRecordModel>, dir: SeedDir, name: Seq<char>, i: int)
    requires
        seed_places_distinct(seeds),
        0 <= i < seeds.len(),
        seeds[i].dir == dir,
        seeds[i].name == name,
    ensures
        seed_position(seeds, dir, name) == i,
{
    lemma_seed_position(seeds, dir, name);
}

/// The first position of an id in a list of entries, found by a scan from the front.
pub proof fn lemma_first_with_id(es: Seq<EntryModel>, id: Seq<char>)
    ensures
        -1 <= first_with_id(es, id) < es.len(),
        first_with_id(es, id) >= 0 ==> es[first_with_id(es, id)].id == id && forall|k: int|
            0 <= k < first_with_id(es, id) ==> es[k].id != id,
        first_with_id(es, id) < 0 ==> forall|k: int| 0 <= k < es.len() ==> es[k].id != id,
    decreases es.len(),
{
    if es.len() > 0 {
        let d = es.drop_last();
        lemma_first_with_id(d, id);
        assert(forall|i: int| 0 <= i < d.len() ==> d[i] == es[i]);
    }
}

/// Finds the first entry with this id.
fn find_id(es: &Vec<KbEntry>, id: &str) -> (r: Option<usize>)
    ensures
        match r {
            Some(i) => first_with_id(entries(*es), id@) == i && i < es@.len(),
            None => first_with_id(entries(*es), id@) == -1,
        },
{
    let mut i: usize = 0;
    while i < es.len()
        invariant
            i <= es.len(),
            forall|k: int| 0 <= k < i ==> (#[trigger] es@[k]).id@ != id@,
        decreases es.len() - i,
    {
        if same_text(es[i].id.as_str(), id) {
            proof {
                lemma_first_with_id(entries(*es), id@);
                let f = first_with_id(entries(*es), id@);
                assert(entries(*es)[i as int].id == id@);
                if f >= 0 && f != i {
                    assert(entries(*es)[f].id == id@);
                }
            }
            return Some(i);
        }
        i = i + 1;
    }
    proof {
        lemma_first_with_id(entries(*es), id@);
        let f = first_with_id(entries(*es), id@);
        if f >= 0 {
            assert(entries(*es)[f].id == id@);
        }
    }
    None
}

/// The directory and file name of a seed file: the subdirectory of its
/// level, and its domain lowercased with spaces made hyphens.
pub fn seed_place(seed: &SeedFile) -> (r: (SeedDir, String))
    ensures
        r.0 == SeedDir::of_level(seed.level),
        r.1@ == seed_file_name(seed.domain@),
{
    let lower = to_lowercase(seed.domain.as_str());
    let name = replace_char(lower.as_str(), ' ', '-');
    let dir = match seed.level {
        SeedLevel::Code => SeedDir::Code,
        SeedLevel::Design => SeedDir::Design,
        SeedLevel::Both => SeedDir::Shared,
    };
    (dir, name)
}

impl Store {
    /// The invariant of a store: file names are distinct in each directory.
    #[verifier::type_invariant]
    spec fn inv(self) -> bool {
        self@.wf()
    }

    /// An empty knowledge-base directory at `base_dir`, with the default
    /// time-to-live for raw cache envelopes.
    pub fn new(base_dir: String) -> (r: Store)
        ensures
            r@.base_dir == base_dir@,
            r@.raw_ttl_secs == DEFAULT_TTL_SECS,
            r@.wf(),
            r@.raw.len() == 0,
            r@.high == SlotModel::Missing,
            r@.medium == SlotModel::Missing,
            r@.seeds.len() == 0,
    {
        let r = Store {
            base_dir,
            raw_ttl_secs: DEFAULT_TTL_SECS,
            raw: Vec::new(),
            high: CuratedSlot::Missing,
            medium: CuratedSlot::Missing,
            seeds: Vec::new(),
        };
        assert(r@.raw =~= seq![]);
        assert(r@.seeds =~= seq![]);
        r
    }

    /// The base directory; also states the invariant of the store (file
    /// names are distinct in each directory), as `raw_files` and
    /// `seed_records` do.
    pub fn base_dir(&self) -> (r: &str)
        ensures
            r@ == self@.base_dir,
            self@.wf(),
    {
        proof {
            use_type_invariant(self);
        }
        self.base_dir.as_str()
    }

    /// The time-to-live given to new raw cache envelopes.
    pub fn raw_ttl_secs(&self) -> (r: u64)
        ensures
            r == self@.raw_ttl_secs,
    {
        self.raw_ttl_secs
    }

    /// Sets the time-to-live given to new raw cache envelopes.
    pub fn set_raw_ttl_secs(&mut self, ttl_secs: u64)
        ensures
            final(self)@ == (StoreModel { raw_ttl_secs: ttl_secs, ..old(self)@ }),
    {
        proof {
            use_type_invariant(&*self);
        }
        self.raw_ttl_secs = ttl_secs;
        assert(self@.raw =~= old(self)@.raw);
        assert(self@.seeds =~= old(self)@.seeds);
    }

    /// The raw cache files, in listing order.
    pub fn raw_files(&self) -> (r: &Vec<RawFile>)
        ensures
            r@.map_values(|f: RawFile| f@) == self@.raw,
            self@.wf(),
    {
        proof {
            use_type_invariant(self);
        }
        &self.raw
    }

    /// The seed files, in listing order.
    pub fn seed_records(&self) -> (r: &Vec<SeedRecord>)
        ensures
            r@.map_values(|s: SeedRecord| s@) == self@.seeds,
            self@.wf(),
    {
        proof {
            use_type_invariant(self);
        }
        &self.seeds
    }

    /// The slot of a curated severity file.
    pub fn curated_slot(&self, impact: Impact) -> (r: &CuratedSlot)
        ensures
            r@ == self@.slot(impact),
    {
        match impact {
            Impact::High => &self.high,
            Impact::Medium => &self.medium,
        }
    }

    // -- Paths --
    /// The path of the raw cache file for a fingerprint.
    pub fn raw_path(&self, fingerprint: &str) -> (r: String)
        ensures
            r@ == raw_path_of(self@.base_dir, fingerprint@),
    {
        let dir = join_path(self.base_dir.as_str(), "raw");
        let name = concat_texts(fingerprint, ".json");
        join_path(dir.as_str(), name.as_str())
    }

    /// The path of a curated severity file.
    pub fn curated_path(&self, impact: Impact) -> (r: String)
        ensures
            r@ == curated_path_of(self@.base_dir, impact),
    {
        let name = match impact {
            Impact::High => "high.json",
            Impact::Medium => "medium.json",
        };
        let dir = join_path(self.base_dir.as_str(), "curated");
        join_path(dir.as_str(), name)
    }

    /// The path of a seed file.
    pub fn seed_path(&self, dir: SeedDir, name: &str) -> (r: String)
        ensures
            r@ == seed_path_of(self@.base_dir, dir, name@),
    {
        let seeds = join_path(self.base_dir.as_str(), "seeds");
        let file = concat_texts(name, ".json");
        match dir {
            SeedDir::Root => join_path(seeds.as_str(), file.as_str()),
            _ => {
                let sub = match dir {
                    SeedDir::Code => "code",
                    SeedDir::Design => "design",
                    _ => "shared",
                };
                let d = join_path(seeds.as_str(), sub);
                join_path(d.as_str(), file.as_str())
            },
        }
    }

    // -- Raw cache --
    fn raw_index(&self, name: &str) -> (r: Option<usize>)
        ensures
            match r {
                Some(i) => raw_position(self@.raw, name@) == i && i < self@.raw.len() && self@.raw[i as int]
                    == self.raw@[i as int]@,
                None => raw_position(self@.raw, name@) == -1,
            },
    {
        proof {
            use_type_invariant(self);
        }
        let mut i: usize = 0;
        while i < self.raw.len()
            invariant
                i <= self.raw@.len(),
                self@.wf(),
                forall|k: int| 0 <= k < i ==> (#[trigger] self.raw@[k]).name@ != name@,
            decreases self.raw@.len() - i,
        {
            if same_text(self.raw[i].name.as_str(), name) {
                proof {
                    assert(self@.raw[i as int].name == name@);
                    lemma_raw_position_unique(self@.raw, name@, i as int);
                }
                return Some(i);
            }
            i = i + 1;
        }
        proof {
            lemma_raw_position(self@.raw, name@);
            let p = raw_position(self@.raw, name@);
            if p >= 0 {
                assert(self@.raw[p].name == self.raw@[p].name@);
            }
        }
        None
    }

    /// Loads a raw cache file (the envelope, or `None` for a malformed file):
    /// it replaces the file of the same name, or is added at the end.
    pub fn load_raw_file(&mut self, file: RawFile)
        ensures
            final(self)@ == old(self)@.with_raw(file@.name, file@.envelope),
    {
        proof {
            use_type_invariant(&*self);
        }
        let ghost old_raw = self@.raw;
        let ghost f = file@;
        let idx = self.raw_index(file.name.as_str());
        let mut raw: Vec<RawFile> = Vec::new();
        std::mem::swap(&mut raw, &mut self.raw);
        assert(raw@.map_values(|x: RawFile| x@) =~= old_raw);
        match idx {
            Some(i) => {
                raw.set(i, file);
                proof {
                    lemma_raw_position(old_raw, f.name);
                    let nr = raw@.map_values(|x: RawFile| x@);
                    assert(nr =~= old_raw.update(i as int, f));
                    assert forall|a: int, b: int|
                        0 <= a < nr.len() && 0 <= b < nr.len() && a != b implies #[trigger] nr[a].name
                        != #[trigger] nr[b].name by {
                        assert(old_raw[a].name != old_raw[b].name);
                    }
                }
            },
            None => {
                raw.push(file);
                proof {
                    lemma_raw_position(old_raw, f.name);
                    let nr = raw@.map_values(|x: RawFile| x@);
                    assert(nr =~= old_raw.push(f));
                    assert forall|a: int, b: int|
                        0 <= a < nr.len() && 0 <= b < nr.len() && a != b implies #[trigger] nr[a].name
                        != #[trigger] nr[b].name by {
                        if a < old_raw.len() && b < old_raw.len() {
                            assert(old_raw[a].name != old_raw[b].name);
                        }
                    }
                }
            },
        }
        self.raw = raw;
        assert(self@.seeds =~= old(self)@.seeds);
        assert(self@.raw =~= old(self)@.with_raw(f.name, f.envelope).raw);
    }

    /// Reads the raw cache envelope stored under a fingerprint: `Ok(None)` if
    /// there is no such file, an error if the file is malformed.
    pub fn read_raw(&self, fingerprint: &str) -> (r: Result<Option<RawCacheEnvelope>, KbError>)
        ensures
            match self@.raw_file(fingerprint@) {
                None => r matches Ok(None),
                Some(f) => match f.envelope {
                    None => r matches Err(KbError::Malformed(p)) && p@ == raw_path_of(
                        self@.base_dir,
                        fingerprint@,
                    ),
                    Some(e) => r matches Ok(Some(x)) && x@ == e,
                },
            },
    {
        match self.raw_index(fingerprint) {
            None => Ok(None),
            Some(i) => {
                match &self.raw[i].envelope {
                    None => Err(KbError::Malformed(self.raw_path(fingerprint))),
                    Some(e) => Ok(Some(e.clone())),
                }
            },
        }
    }

    /// Writes a raw cache envelope under its own fingerprint.
    pub fn write_raw(&mut self, envelope: &RawCacheEnvelope)
        ensures
            final(self)@ == old(self)@.with_raw(envelope@.fingerprint, Some(envelope@)),
    {
        let file = RawFile { name: envelope.fingerprint.clone(), envelope: Some(envelope.clone()) };
        self.load_raw_file(file);
    }

    /// Deletes the raw cache file of a fingerprint, if there is one.
    pub fn delete_raw(&mut self, fingerprint: &str)
        ensures
            final(self)@ == old(self)@.without_raw(fingerprint@),
    {
        proof {
            use_type_invariant(&*self);
        }
        let ghost old_raw = self@.raw;
        match self.raw_index(fingerprint) {
            Some(i) => {
                let mut raw: Vec<RawFile> = Vec::new();
                std::mem::swap(&mut raw, &mut self.raw);
                assert(raw@.map_values(|x: RawFile| x@) =~= old_raw);
                raw.remove(i);
                proof {
                    let nr = raw@.map_values(|x: RawFile| x@);
                    assert(nr =~= old_raw.remove(i as int));
                    assert forall|a: int, b: int|
                        0 <= a < nr.len() && 0 <= b < nr.len() && a != b implies #[trigger] nr[a].name
                        != #[trigger] nr[b].name by {
                        let a0 = if a < i { a } else { a + 1 };
                        let b0 = if b < i { b } else { b + 1 };
                        assert(old_raw[a0].name != old_raw[b0].name);
                    }
                }
                self.raw = raw;
            },
            None => {},
        }
        assert(self@.seeds =~= old(self)@.seeds);
        assert(self@.raw =~= old(self)@.without_raw(fingerprint@).raw);
    }

    /// All raw cache envelopes, in listing order; malformed files are skipped.
    pub fn list_raw(&self) -> (r: Vec<RawCacheEnvelope>)
        ensures
            entries_of_envelopes(r) == parsed_envelopes(self@.raw),
    {
        let mut r: Vec<RawCacheEnvelope> = Vec::new();
        let mut i: usize = 0;
        while i < self.raw.len()
            invariant
                i <= self.raw@.len(),
                entries_of_envelopes(r) == parsed_envelopes(self@.raw.take(i as int)),
            decreases self.raw@.len() - i,
        {
            proof {
                assert(self@.raw.take(i + 1).drop_last() =~= self@.raw.take(i as int));
                assert(self@.raw.take(i + 1).last() == self.raw@[i as int]@);
            }
            match &self.raw[i].envelope {
                Some(e) => {
                    let ghost before = entries_of_envelopes(r);
                    r.push(e.clone());
                    assert(entries_of_envelopes(r) =~= before + seq![e@]);
                },
                None => {
                    assert(parsed_envelopes(self@.raw.take(i + 1)) =~= parsed_envelopes(self@.raw.take(i as int)));
                },
            }
            i = i + 1;
        }
        assert(self@.raw.take(self@.raw.len() as int) =~= self@.raw);
        r
    }

    // -- Curated --
    /// Loads the state of a curated severity file.
    pub fn load_curated(&mut self, impact: Impact, slot: CuratedSlot)
        ensures
            final(self)@ == old(self)@.with_slot(impact, slot@),
    {
        proof {
            use_type_invariant(&*self);
        }
        match impact {
            Impact::High => self.high = slot,
            Impact::Medium => self.medium = slot,
        }
        assert(self@.raw =~= old(self)@.raw);
        assert(self@.seeds =~= old(self)@.seeds);
    }

    /// Reads the curated file of a severity: `Ok(None)` if there is none, an
    /// error if it is malformed.
    pub fn read_curated(&self, impact: &Impact) -> (r: Result<Option<CuratedFile>, KbError>)
        ensures
            match self@.slot(*impact) {
                SlotModel::Missing => r matches Ok(None),
                SlotModel::Malformed => r matches Err(KbError::Malformed(p)) && p@ == curated_path_of(
                    self@.base_dir,
                    *impact,
                ),
                SlotModel::Present(f) => r matches Ok(Some(x)) && x@ == f,
            },
    {
        match self.curated_slot(*impact) {
            CuratedSlot::Missing => Ok(None),
            CuratedSlot::Malformed => Err(KbError::Malformed(self.curated_path(*impact))),
            CuratedSlot::Present(f) => Ok(Some(f.clone())),
        }
    }

    /// Writes a curated file to the slot of its severity.
    pub fn write_curated(&mut self, file: &CuratedFile)
        ensures
            final(self)@ == old(self)@.with_slot(file.impact, SlotModel::Present(file@)),
    {
        self.load_curated(file.impact, CuratedSlot::Present(file.clone()));
    }

    // -- Seeds --
    fn seed_index(&self, dir: SeedDir, name: &str) -> (r: Option<usize>)
        ensures
            match r {
                Some(i) => seed_position(self@.seeds, dir, name@) == i && i < self@.seeds.len(),
                None => seed_position(self@.seeds, dir, name@) == -1,
            },
    {
        proof {
            use_type_invariant(self);
        }
        let mut i: usize = 0;
        while i < self.seeds.len()
            invariant
                i <= self.seeds@.len(),
                self@.wf(),
                forall|k: int| 0 <= k < i ==> !((#[trigger] self.seeds@[k]).dir == dir && self.seeds@[k].name@ == name@),
            decreases self.seeds@.len() - i,
        {
            if self.seeds[i].dir == dir && same_text(self.seeds[i].name.as_str(), name) {
                proof {
                    assert(self@.seeds[i as int].name == name@);
                    lemma_seed_position_unique(self@.seeds, dir, name@, i as int);
                }
                return Some(i);
            }
            i = i + 1;
        }
        proof {
            lemma_seed_position(self@.seeds, dir, name@);
            let p = seed_position(self@.seeds, dir, name@);
            if p >= 0 {
                assert(self@.seeds[p].name == self.seeds@[p].name@);
            }
        }
        None
    }

    /// Loads a seed file (its contents, or `None` for a malformed file): it
    /// replaces the file at the same place, or is added at the end.
    pub fn load_seed_file(&mut self, record: SeedRecord)
        ensures
            final(self)@ == old(self)@.with_seed(record@.dir, record@.name, record@.seed),
    {
        proof {
            use_type_invariant(&*self);
        }
        let ghost old_seeds = self@.seeds;
        let ghost rec = record@;
        let idx = self.seed_index(record.dir, record.name.as_str());
        let mut seeds: Vec<SeedRecord> = Vec::new();
        std::mem::swap(&mut seeds, &mut self.seeds);
        assert(seeds@.map_values(|x: SeedRecord| x@) =~= old_seeds);
        match idx {
            Some(i) => {
                seeds.set(i, record);
                proof {
                    lemma_seed_position(old_seeds, rec.dir, rec.name);
                    let ns = seeds@.map_values(|x: SeedRecord| x@);
                    assert(ns =~= old_seeds.update(i as int, rec));
                    assert forall|a: int, b: int|
                        0 <= a < ns.len() && 0 <= b < ns.len() && a != b implies !(
                        #[trigger] ns[a].dir == #[trigger] ns[b].dir && ns[a].name == ns[b].name) by {
                        assert(!(old_seeds[a].dir == old_seeds[b].dir && old_seeds[a].name
                            == old_seeds[b].name));
                    }
                }
            },
            None => {
                seeds.push(record);
                proof {
                    lemma_seed_position(old_seeds, rec.dir, rec.name);
                    let ns = seeds@.map_values(|x: SeedRecord| x@);
                    assert(ns =~= old_seeds.push(rec));
                    assert forall|a: int, b: int|
                        0 <= a < ns.len() && 0 <= b < ns.len() && a != b implies !(
                        #[trigger] ns[a].dir == #[trigger] ns[b].dir && ns[a].name == ns[b].name) by {
                        if a < old_seeds.len() && b < old_seeds.len() {
                            assert(!(old_seeds[a].dir == old_seeds[b].dir && old_seeds[a].name
                                == old_seeds[b].name));
                        }
                    }
                }
            },
        }
        self.seeds = seeds;
        assert(self@.raw =~= old(self)@.raw);
        assert(self@.seeds =~= old(self)@.with_seed(rec.dir, rec.name, rec.seed).seeds);
    }

    fn parsed_seeds_of(&self, dir: SeedDir, out: &mut Vec<SeedFile>)
        ensures
            seed_models(*final(out)) == seed_models(*old(out)) + parsed_seeds_in(self@.seeds, dir),
    {
        let ghost start = seed_models(*out);
        let mut i: usize = 0;
        while i < self.seeds.len()
            invariant
                i <= self.seeds@.len(),
                seed_models(*out) == start + parsed_seeds_in(self@.seeds.take(i as int), dir),
            decreases self.seeds@.len() - i,
        {
            proof {
                assert(self@.seeds.take(i + 1).drop_last() =~= self@.seeds.take(i as int));
                assert(self@.seeds.take(i + 1).last() == self.seeds@[i as int]@);
            }
            let ghost before = seed_models(*out);
            if self.seeds[i].dir == dir {
                match &self.seeds[i].seed {
                    Some(s) => {
                        out.push(s.clone());
                        assert(seed_models(*out) =~= before + seq![s@]);
                    },
                    None => {},
                }
            }
            assert(seed_models(*out) =~= start + parsed_seeds_in(self@.seeds.take(i + 1), dir));
            i = i + 1;
        }
        assert(self@.seeds.take(self@.seeds.len() as int) =~= self@.seeds);
    }

    /// Reads all seed files: those of `code/`, `design/` and `shared/`, then
    /// those directly in `seeds/`; malformed files are skipped.
    pub fn read_seeds(&self) -> (r: Vec<SeedFile>)
        ensures
            seed_models(r) == self@.all_seeds(),
    {
        let mut out: Vec<SeedFile> = Vec::new();
        assert(seed_models(out) =~= seq![]);
        self.parsed_seeds_of(SeedDir::Code, &mut out);
        self.parsed_seeds_of(SeedDir::Design, &mut out);
        self.parsed_seeds_of(SeedDir::Shared, &mut out);
        self.parsed_seeds_of(SeedDir::Root, &mut out);
        assert(seed_models(out) =~= self@.all_seeds());
        out
    }

    /// Writes a seed file: named after its domain (lowercased, spaces made
    /// hyphens), in the subdirectory of its level.
    pub fn write_seed(&mut self, seed: &SeedFile)
        ensures
            final(self)@ == old(self)@.with_seed(
                SeedDir::of_level(seed.level),
                seed_file_name(seed.domain@),
                Some(seed@),
            ),
    {
        let (dir, name) = seed_place(seed);
        self.load_seed_file(SeedRecord { dir, name, seed: Some(seed.clone()) });
    }

    /// The path at which [`Store::write_seed`] puts a seed file.
    pub fn seed_path_for(&self, seed: &SeedFile) -> (r: String)
        ensures
            r@ == seed_path_of(self@.base_dir, SeedDir::of_level(seed.level), seed_file_name(seed.domain@)),
    {
        let (dir, name) = seed_place(seed);
        self.seed_path(dir, name.as_str())
    }

    fn seed_paths_of(&self, dir: SeedDir, out: &mut Vec<String>)
        ensures
            texts(*final(out)) == texts(*old(out)) + seed_paths_in(self@.base_dir, self@.seeds, dir),
    {
        let ghost start = texts(*out);
        let mut i: usize = 0;
        while i < self.seeds.len()
            invariant
                i <= self.seeds@.len(),
                texts(*out) == start + seed_paths_in(self@.base_dir, self@.seeds.take(i as int), dir),
            decreases self.seeds@.len() - i,
        {
            proof {
                assert(self@.seeds.take(i + 1).drop_last() =~= self@.seeds.take(i as int));
                assert(self@.seeds.take(i + 1).last() == self.seeds@[i as int]@);
            }
            let ghost before = texts(*out);
            if self.seeds[i].dir == dir {
                let p = self.seed_path(dir, self.seeds[i].name.as_str());
                out.push(p);
                assert(texts(*out) =~= before + seq![p@]);
            }
            assert(seed_paths_in(self@.base_dir, self@.seeds.take(i + 1), dir) =~= seed_paths_in(
                self@.base_dir,
                self@.seeds.take(i as int),
                dir,
            ) + if self@.seeds[i as int].dir == dir {
                seq![seed_path_of(self@.base_dir, dir, self@.seeds[i as int].name)]
            } else {
                seq![]
            });
            i = i + 1;
        }
        assert(self@.seeds.take(self@.seeds.len() as int) =~= self@.seeds);
    }

    /// The paths of all seed files (malformed ones too): those of `code/`,
    /// `design/` and `shared/`, then those directly in `seeds/`.
    pub fn list_seed_paths(&self) -> (r: Vec<String>)
        ensures
            texts(r) == seed_paths_in(self@.base_dir, self@.seeds, SeedDir::Code) + seed_paths_in(
                self@.base_dir,
                self@.seeds,
                SeedDir::Design,
            ) + seed_paths_in(self@.base_dir, self@.seeds, SeedDir::Shared) + seed_paths_in(
                self@.base_dir,
                self@.seeds,
                SeedDir::Root,
            ),
    {
        let mut out: Vec<String> = Vec::new();
        assert(texts(out) =~= seq![]);
        self.seed_paths_of(SeedDir::Code, &mut out);
        self.seed_paths_of(SeedDir::Design, &mut out);
        self.seed_paths_of(SeedDir::Shared, &mut out);
        self.seed_paths_of(SeedDir::Root, &mut out);
        out
    }

    // -- Entries --
    /// Finds an entry by id across the curated files (high first).
    pub fn find_entry_mut(&self, entry_id: &str) -> (r: Result<Option<(Impact, KbEntry)>, KbError>)
        ensures
            match self@.locate(entry_id@) {
                Located::Failed => r matches Err(KbError::Malformed(_)),
                Located::Absent => r matches Ok(None),
                Located::At(impact, i) => r matches Ok(Some((x, e))) && x == impact && e@
                    == self@.curated_entries(impact)[i],
            },
    {
        let high = self.read_curated(&Impact::High)?;
        match &high {
            Some(file) => {
                match find_id(&file.entries, entry_id) {
                    Some(i) => {
                        return Ok(Some((Impact::High, file.entries[i].clone())));
                    },
                    None => {},
                }
            },
            None => {},
        }
        let medium = self.read_curated(&Impact::Medium)?;
        match &medium {
            Some(file) => {
                match find_id(&file.entries, entry_id) {
                    Some(i) => {
                        return Ok(Some((Impact::Medium, file.entries[i].clone())));
                    },
                    None => {},
                }
            },
            None => {},
        }
        Ok(None)
    }

    /// Updates the first entry with this id in the curated files (high
    /// first) by `updater`, and writes the file back. Returns whether an
    /// entry was found.
    pub fn update_curated_entry<F: FnOnce(KbEntry) -> KbEntry>(
        &mut self,
        entry_id: &str,
        updater: F,
    ) -> (r: Result<bool, KbError>)
        requires
            forall|e: KbEntry| #[trigger] updater.requires((e,)),
        ensures
            match old(self)@.locate(entry_id@) {
                Located::Failed => r matches Err(KbError::Malformed(_)) && final(self)@ == old(self)@,
                Located::Absent => r matches Ok(false) && final(self)@ == old(self)@,
                Located::At(impact, i) => r matches Ok(true) && exists|arg: KbEntry, out: KbEntry|
                    {
                        &&& arg@ == old(self)@.curated_entries(impact)[i]
                        &&& #[trigger] updater.ensures((arg,), out)
                        &&& final(self)@ == old(self)@.with_entry_replaced(impact, i, out@)
                    },
            },
    {
        let found = self.find_entry_mut(entry_id)?;
        match found {
            None => Ok(false),
            Some((impact, entry)) => {
                let mut file = match self.read_curated(&impact) {
                    Ok(Some(f)) => f,
                    _ => {
                        proof {
                            assert(false);
                        }
                        return Ok(false);
                    },
                };
                let i = match find_id(&file.entries, entry_id) {
                    Some(i) => i,
                    None => {
                        proof {
                            assert(false);
                        }
                        return Ok(false);
                    },
                };
                let ghost arg = entry;
                let updated = updater(entry);
                let ghost old_entries = entries(file.entries);
                file.entries.set(i, updated);
                proof {
                    assert(entries(file.entries) =~= old_entries.update(i as int, updated@));
                    assert(updater.ensures((arg,), updated));
                }
                self.write_curated(&file);
                Ok(true)
            },
        }
    }
}

/// The values of a list of envelopes.
pub open spec fn entries_of_envelopes(v: Vec<RawCacheEnvelope>) -> Seq<EnvelopeModel> {
    v@.map_values(|e: RawCacheEnvelope| e@)
}

/// The values of a list of seed files.
pub open spec fn seed_models(v: Vec<SeedFile>) -> Seq<SeedModel> {
    v@.map_values(|s: SeedFile| s@)
}

} // verus!
