//! One download run, as a sequence of decisions.
//!
//! The run goes through the declared assets in order. For each it parses the
//! expected hash, looks the asset up in the hash list, and either leaves it
//! alone or asks for it to be fetched; what the fetch gave is then recorded.
//! The transfers and the files are the caller's: `Run::step` says what to do
//! next, the caller does it and hands back what came of it.

use crate::error::TaError;
use crate::hash::{hash_of_text, sha256, Sha256Hash, MESSAGE_LIMIT};
use crate::hash_list::HashList;
use crate::text::push_char;
use vstd::prelude::*;
use vstd::string::StringExecFns;

verus! {

/// Definition for a test file.
pub struct TestAssetDef {
    /// Name of the file on disk. This should be unique for the file.
    pub filename: String,
    /// Sha256 hash of the file's data in hexadecimal lowercase representation.
    pub hash: String,
    /// The url the test file can be obtained from.
    pub url: String,
}

/// The path of the file `name` in the directory `dir`.
pub open spec fn path_in(dir: Seq<char>, name: Seq<char>) -> Seq<char> {
    dir + seq!['/'] + name
}

/// The path under which the content of `def` is stored in the directory
/// `dir`: the file of the asset's name.
pub fn asset_path(dir: &str, def: &TestAssetDef) -> (path: String)
    ensures
        path@ == path_in(dir@, def.filename@),
{
    let mut path = dir.to_owned();
    push_char(&mut path, '/');
    path.append(def.filename.as_str());
    path
}

/// The path of the file that keeps the hash list of the directory `dir`:
/// the file `hash_list` in it.
pub fn hash_list_path(dir: &str) -> (path: String)
    ensures
        path@ == path_in(dir@, "hash_list"@),
{
    let mut path = dir.to_owned();
    push_char(&mut path, '/');
    path.append("hash_list");
    path
}

/// What a transfer gave.
#[derive(Debug, PartialEq, Eq)]
pub enum DownloadOutcome {
    /// The content arrived; this is its hash.
    WithHash(Sha256Hash),
    /// The transfer ended with this response code, which is no success.
    DownloadFailed(u32),
}

/// A response code from 200 to 399 is a success.
pub open spec fn is_success(response_code: u32) -> bool {
    200 <= response_code <= 399
}

/// The outcome of a transfer that ended with `response_code`, where `hash` is
/// the hash of what arrived.
pub open spec fn outcome_of(response_code: u32, hash: Sha256Hash) -> DownloadOutcome {
    if is_success(response_code) {
        DownloadOutcome::WithHash(hash)
    } else {
        DownloadOutcome::DownloadFailed(response_code)
    }
}

impl DownloadOutcome {
    /// The outcome of a transfer that ended with `response_code`, where `hash`
    /// is the hash of what arrived.
    pub fn classify(response_code: u32, hash: Sha256Hash) -> (outcome: Self)
        ensures
            outcome == outcome_of(response_code, hash),
    {
        if response_code < 200 || response_code > 399 {
            DownloadOutcome::DownloadFailed(response_code)
        } else {
            DownloadOutcome::WithHash(hash)
        }
    }

    /// The outcome of a transfer that ended with `response_code` and brought
    /// `content`: on success, the SHA-256 digest of the content.
    pub fn of_transfer(response_code: u32, content: &[u8]) -> (outcome: Self)
        requires
            content@.len() < MESSAGE_LIMIT,
        ensures
            match outcome {
                DownloadOutcome::WithHash(hash) => is_success(response_code) && hash@ == sha256(
                    content@,
                ),
                DownloadOutcome::DownloadFailed(code) => !is_success(response_code) && code
                    == response_code,
            },
    {
        Self::classify(response_code, Sha256Hash::of_content(content))
    }
}

/// How the content that was fetched for an asset compares with what the
/// asset was declared to be.
#[derive(Debug, PartialEq, Eq, Structural, Clone, Copy)]
pub enum Verdict {
    /// The content has the expected hash.
    Verified,
    /// The content has another hash. The file is kept and that hash recorded.
    Mismatch,
}

/// What a step of a run decided. The number is the index of the asset that
/// the step was about.
#[derive(Debug, PartialEq, Eq, Structural, Clone, Copy)]
pub enum Action {
    /// The hash list has the asset with the expected hash: nothing is
    /// fetched, and the run has moved on to the next asset.
    Skip(usize),
    /// The asset has to be fetched. The next step takes the outcome.
    Fetch(usize),
    /// The asset was fetched and the hash of its content recorded, and the
    /// run has moved on to the next asset.
    Recorded(usize, Verdict),
    /// No asset is left: the hash list is to be saved.
    Persist,
}

/// A run as the contracts see it.
pub struct RunState {
    /// The hash list, as the mapping from name to hash bytes.
    pub ledger: Map<Seq<char>, Seq<u8>>,
    /// How many of the assets are done with.
    pub settled: nat,
}

/// The hash that `def` declares, where the text that it gives for it is the
/// text form of a hash.
pub open spec fn expected_hash(def: TestAssetDef) -> Option<Seq<u8>> {
    hash_of_text(def.hash@)
}

/// The ledger has `def`'s name with the hash that `def` declares.
pub open spec fn is_cached(ledger: Map<Seq<char>, Seq<u8>>, def: TestAssetDef) -> bool {
    &&& expected_hash(def) is Some
    &&& ledger.contains_key(def.filename@)
    &&& ledger[def.filename@] == expected_hash(def).unwrap()
}

/// The verdict on content whose hash bytes are `found`, for an asset
/// declared with `expected`.
pub open spec fn verdict_of(found: Seq<u8>, expected: Seq<u8>) -> Verdict {
    if found == expected {
        Verdict::Verified
    } else {
        Verdict::Mismatch
    }
}

/// One step of a run over `defs`: the state after it, and what it decided
/// or why it gave up.
///
/// The step is about the first asset that is not settled. `outcome` is read
/// only where that asset has to be fetched.
pub open spec fn step_spec(
    state: RunState,
    defs: Seq<TestAssetDef>,
    outcome: Option<DownloadOutcome>,
) -> (RunState, Result<Action, TaError>) {
    if state.settled >= defs.len() {
        (state, Ok(Action::Persist))
    } else {
        let at = state.settled as usize;
        let def = defs[state.settled as int];
        let moved_on = (state.settled + 1) as nat;
        if expected_hash(def) is None {
            (state, Err(TaError::BadHashFormat))
        } else if is_cached(state.ledger, def) {
            (RunState { ledger: state.ledger, settled: moved_on }, Ok(Action::Skip(at)))
        } else {
            match outcome {
                None => (state, Ok(Action::Fetch(at))),
                Some(DownloadOutcome::DownloadFailed(code)) => (
                    state,
                    Err(TaError::DownloadFailed(code)),
                ),
                Some(DownloadOutcome::WithHash(found)) => (
                    RunState {
                        ledger: state.ledger.insert(def.filename@, found@),
                        settled: moved_on,
                    },
                    Ok(Action::Recorded(at, verdict_of(found@, expected_hash(def).unwrap()))),
                ),
            }
        }
    }
}

/// A download run over a list of assets: the hash list as it stands, and
/// how far the run has come through the assets.
pub struct Run<'a> {
    defs: &'a [TestAssetDef],
    list: HashList,
    settled: usize,
}

impl<'a> View for Run<'a> {
    type V = RunState;

    closed spec fn view(&self) -> RunState {
        RunState { ledger: self.list@, settled: self.settled as nat }
    }
}

impl<'a> Run<'a> {
    /// The assets that the run goes over.
    pub closed spec fn defs(&self) -> Seq<TestAssetDef> {
        self.defs@
    }

    /// A run over `defs` that starts from `list`, with no asset settled.
    pub fn new(defs: &'a [TestAssetDef], list: HashList) -> (run: Self)
        ensures
            run.defs() == defs@,
            run@ == (RunState { ledger: list@, settled: 0 }),
    {
        Run { defs, list, settled: 0 }
    }

    /// The hash list as the run has it now.
    pub fn hash_list(&self) -> (list: &HashList)
        ensures
            list@ == self@.ledger,
    {
        &self.list
    }

    /// Decides what is next in the run.
    ///
    /// After `Action::Fetch` the caller fetches that asset and calls `step`
    /// again with the outcome; at every other call `outcome` is `None`. After
    /// `Action::Persist` the caller saves the hash list. An error ends the
    /// run, and the hash list is then not to be saved. The index in an
    /// action is that of one of the assets.
    pub fn step(&mut self, outcome: Option<DownloadOutcome>) -> (r: Result<Action, TaError>)
        ensures
            final(self).defs() == old(self).defs(),
            (final(self)@, r) == step_spec(old(self)@, old(self).defs(), outcome),
            match r {
                Ok(Action::Skip(i)) | Ok(Action::Fetch(i)) | Ok(Action::Recorded(i, _)) => i
                    < old(self).defs().len(),
                _ => true,
            },
    {
        if self.settled >= self.defs.len() {
            return Ok(Action::Persist);
        }
        let at = self.settled;
        let def = &self.defs[at];
        let expected = match Sha256Hash::from_hex(def.hash.as_str()) {
            Ok(hash) => hash,
            Err(_) => {
                return Err(TaError::BadHashFormat);
            },
        };
        let cached = match self.list.get_hash(def.filename.as_str()) {
            Some(hash) => *hash == expected,
            None => false,
        };
        if cached {
            self.settled = at + 1;
            return Ok(Action::Skip(at));
        }
        match outcome {
            None => Ok(Action::Fetch(at)),
            Some(DownloadOutcome::DownloadFailed(code)) => Err(TaError::DownloadFailed(code)),
            Some(DownloadOutcome::WithHash(found)) => {
                self.list.add_entry(def.filename.as_str(), &found);
                self.settled = at + 1;
                let verdict = if found == expected {
                    Verdict::Verified
                } else {
                    Verdict::Mismatch
                };
                Ok(Action::Recorded(at, verdict))
            },
        }
    }
}

/// How a run ended, and what it fetched on the way.
pub struct RunResult {
    /// The hash list that the run saves at its end; or why the run was given
    /// up, and then nothing is saved.
    pub ending: Result<Map<Seq<char>, Seq<u8>>, TaError>,
    /// The indices of the assets that were fetched, in the order of the
    /// fetches.
    pub fetched: Seq<int>,
}

/// The run over the assets of `defs` from index `from` on, starting with
/// `ledger`, where fetching the asset at index `i` gives `outcomes(i)`.
///
/// An asset whose expected hash is no hash ends the run. An asset that the
/// ledger has with the expected hash is passed over. Any other asset is
/// fetched: a failed transfer ends the run, and otherwise the hash of what
/// arrived is recorded under the asset's name, expected or not.
pub open spec fn run_from(
    ledger: Map<Seq<char>, Seq<u8>>,
    defs: Seq<TestAssetDef>,
    from: nat,
    outcomes: spec_fn(int) -> DownloadOutcome,
) -> RunResult
    decreases defs.len() - from,
{
    if from >= defs.len() {
        RunResult { ending: Ok(ledger), fetched: Seq::empty() }
    } else {
        let def = defs[from as int];
        if expected_hash(def) is None {
            RunResult { ending: Err(TaError::BadHashFormat), fetched: Seq::empty() }
        } else if is_cached(ledger, def) {
            run_from(ledger, defs, from + 1, outcomes)
        } else {
            match outcomes(from as int) {
                DownloadOutcome::DownloadFailed(code) => RunResult {
                    ending: Err(TaError::DownloadFailed(code)),
                    fetched: seq![from as int],
                },
                DownloadOutcome::WithHash(found) => {
                    let rest = run_from(
                        ledger.insert(def.filename@, found@),
                        defs,
                        from + 1,
                        outcomes,
                    );
                    RunResult { ending: rest.ending, fetched: seq![from as int] + rest.fetched }
                },
            }
        }
    }
}

/// The whole run over `defs` that starts with `ledger`.
pub open spec fn run(
    ledger: Map<Seq<char>, Seq<u8>>,
    defs: Seq<TestAssetDef>,
    outcomes: spec_fn(int) -> DownloadOutcome,
) -> RunResult {
    run_from(ledger, defs, 0, outcomes)
}

/// Stepping through a run gives the run: what `step_spec` decides in a state
/// is how `run_from` goes on from that state.
///
/// `Persist` ends the run with the ledger saved as it stands, and an error
/// ends it with that error. After `Skip` the rest of the run is the run from
/// the next state. After `Fetch` the step that takes the outcome either
/// gives up with the failed transfer or records, and the rest of the run is
/// the run from the state after it, with this fetch before its fetches.
pub proof fn lemma_steps_make_run(
    state: RunState,
    defs: Seq<TestAssetDef>,
    outcomes: spec_fn(int) -> DownloadOutcome,
)
    ensures
        ({
            let here = run_from(state.ledger, defs, state.settled, outcomes);
            let at = state.settled as int;
            match step_spec(state, defs, None) {
                (_, Ok(Action::Persist)) => here == (RunResult {
                    ending: Ok(state.ledger),
                    fetched: Seq::empty(),
                }),
                (_, Err(e)) => here == (RunResult { ending: Err(e), fetched: Seq::empty() }),
                (next, Ok(Action::Skip(_))) => here == run_from(
                    next.ledger,
                    defs,
                    next.settled,
                    outcomes,
                ),
                (_, Ok(Action::Fetch(_))) => match step_spec(state, defs, Some(outcomes(at))) {
                    (_, Err(e)) => here == (RunResult { ending: Err(e), fetched: seq![at] }),
                    (next, Ok(Action::Recorded(_, _))) => {
                        let rest = run_from(next.ledger, defs, next.settled, outcomes);
                        here == (RunResult { ending: rest.ending, fetched: seq![at] + rest.fetched })
                    },
                    _ => false,
                },
                (_, Ok(Action::Recorded(_, _))) => false,
            }
        }),
{
}

/// A run over assets that the ledger all has, each with its expected hash,
/// fetches nothing and saves the ledger as it was.
pub proof fn lemma_cached_assets_are_not_fetched(
    ledger: Map<Seq<char>, Seq<u8>>,
    defs: Seq<TestAssetDef>,
    from: nat,
    outcomes: spec_fn(int) -> DownloadOutcome,
)
    requires
        forall|i: int| from <= i < defs.len() ==> is_cached(ledger, #[trigger] defs[i]),
    ensures
        run_from(ledger, defs, from, outcomes) == (RunResult {
            ending: Ok(ledger),
            fetched: Seq::empty(),
        }),
    decreases defs.len() - from,
{
    if from < defs.len() {
        assert(is_cached(ledger, defs[from as int]));
        lemma_cached_assets_are_not_fetched(ledger, defs, from + 1, outcomes);
    }
}

/// A step that finds its asset in the ledger with the expected hash passes
/// it over, whatever outcome it is handed, and leaves the ledger alone.
pub proof fn lemma_cached_asset_is_skipped(
    state: RunState,
    defs: Seq<TestAssetDef>,
    outcome: Option<DownloadOutcome>,
)
    requires
        state.settled < defs.len(),
        is_cached(state.ledger, defs[state.settled as int]),
    ensures
        step_spec(state, defs, outcome) == (
            RunState { ledger: state.ledger, settled: state.settled + 1 },
            Ok::<Action, TaError>(Action::Skip(state.settled as usize)),
        ),
{
}

/// A step whose asset the ledger lacks, or has with another hash, asks for
/// the fetch and changes nothing. Handed a failed transfer it gives up with
/// the response code and changes nothing. Handed the hash of what arrived it
/// records that hash under the asset's name, expected or not, moves on, and
/// says whether the hash is the expected one.
pub proof fn lemma_uncached_asset_is_fetched(
    state: RunState,
    defs: Seq<TestAssetDef>,
    code: u32,
    found: Sha256Hash,
)
    requires
        state.settled < defs.len(),
        expected_hash(defs[state.settled as int]) is Some,
        !is_cached(state.ledger, defs[state.settled as int]),
    ensures
        ({
            let def = defs[state.settled as int];
            let at = state.settled as usize;
            &&& step_spec(state, defs, None) == (state, Ok::<Action, TaError>(Action::Fetch(at)))
            &&& step_spec(state, defs, Some(DownloadOutcome::DownloadFailed(code))) == (
                state,
                Err::<Action, TaError>(TaError::DownloadFailed(code)),
            )
            &&& step_spec(state, defs, Some(DownloadOutcome::WithHash(found))) == (
                RunState {
                    ledger: state.ledger.insert(def.filename@, found@),
                    settled: state.settled + 1,
                },
                Ok::<Action, TaError>(
                    Action::Recorded(at, verdict_of(found@, expected_hash(def).unwrap())),
                ),
            )
        }),
{
}

/// A run over one asset that the ledger lacks, or has with another hash,
/// fetches it; if the transfer succeeds, the run ends well and saves the
/// ledger with the hash of what arrived under the asset's name, whether or
/// not that is the expected hash.
pub proof fn lemma_fetched_hash_is_recorded(
    ledger: Map<Seq<char>, Seq<u8>>,
    def: TestAssetDef,
    outcomes: spec_fn(int) -> DownloadOutcome,
    found: Sha256Hash,
)
    requires
        expected_hash(def) is Some,
        !is_cached(ledger, def),
        outcomes(0) == DownloadOutcome::WithHash(found),
    ensures
        run(ledger, seq![def], outcomes) == (RunResult {
            ending: Ok(ledger.insert(def.filename@, found@)),
            fetched: seq![0int],
        }),
        step_spec(
            RunState { ledger, settled: 0 },
            seq![def],
            Some(outcomes(0)),
        ).1 == Ok::<Action, TaError>(
            Action::Recorded(0, verdict_of(found@, expected_hash(def).unwrap())),
        ),
{
    let defs = seq![def];
    let after = ledger.insert(def.filename@, found@);
    assert(defs[0] == def);
    assert(run_from(after, defs, 1, outcomes) == (RunResult {
        ending: Ok(after),
        fetched: Seq::empty(),
    }));
    assert(seq![0int] + Seq::<int>::empty() =~= seq![0int]);
}

/// A run that starts with nothing recorded, over one asset whose content
/// arrives with the expected hash, saves a ledger that holds that asset's
/// name with that hash and nothing else.
pub proof fn lemma_first_run_records_the_asset(
    def: TestAssetDef,
    outcomes: spec_fn(int) -> DownloadOutcome,
    found: Sha256Hash,
)
    requires
        expected_hash(def) == Some(found@),
        outcomes(0) == DownloadOutcome::WithHash(found),
    ensures
        run(Map::empty(), seq![def], outcomes) == (RunResult {
            ending: Ok(Map::<Seq<char>, Seq<u8>>::empty().insert(def.filename@, found@)),
            fetched: seq![0int],
        }),
        Map::<Seq<char>, Seq<u8>>::empty().insert(def.filename@, found@).dom() =~= set![
            def.filename@,
        ],
{
    lemma_fetched_hash_is_recorded(Map::empty(), def, outcomes, found);
}

/// A fetch that fails is the last thing a run does: the run ends with the
/// error that carries the fetch's response code, and saves nothing.
pub proof fn lemma_failed_fetch_ends_run(
    ledger: Map<Seq<char>, Seq<u8>>,
    defs: Seq<TestAssetDef>,
    from: nat,
    outcomes: spec_fn(int) -> DownloadOutcome,
)
    ensures
        ({
            let result = run_from(ledger, defs, from, outcomes);
            forall|k: int|
                0 <= k < result.fetched.len() ==> match outcomes(#[trigger] result.fetched[k]) {
                    DownloadOutcome::DownloadFailed(code) => k == result.fetched.len() - 1
                        && result.ending == Err::<Map<Seq<char>, Seq<u8>>, TaError>(
                        TaError::DownloadFailed(code),
                    ),
                    DownloadOutcome::WithHash(_) => true,
                }
        }),
    decreases defs.len() - from,
{
    if from < defs.len() {
        let def = defs[from as int];
        if expected_hash(def) is None {
        } else if is_cached(ledger, def) {
            lemma_failed_fetch_ends_run(ledger, defs, from + 1, outcomes);
        } else {
            match outcomes(from as int) {
                DownloadOutcome::DownloadFailed(code) => {},
                DownloadOutcome::WithHash(found) => {
                    let after = ledger.insert(def.filename@, found@);
                    lemma_failed_fetch_ends_run(after, defs, from + 1, outcomes);
                    let rest = run_from(after, defs, from + 1, outcomes);
                    let result = run_from(ledger, defs, from, outcomes);
                    assert(result.fetched == seq![from as int] + rest.fetched);
                    assert forall|k: int| 0 <= k < result.fetched.len() implies match outcomes(
                        #[trigger] result.fetched[k],
                    ) {
                        DownloadOutcome::DownloadFailed(code) => k == result.fetched.len() - 1
                            && result.ending == Err::<Map<Seq<char>, Seq<u8>>, TaError>(
                            TaError::DownloadFailed(code),
                        ),
                        DownloadOutcome::WithHash(_) => true,
                    } by {
                        if k > 0 {
                            assert(result.fetched[k] == rest.fetched[k - 1]);
                        }
                    }
                },
            }
        }
    }
}

/// `saved` has every name that `ledger` has, each with the hash that it has
/// in `ledger` unless it is the name of one of the assets of `defs` from
/// index `from` on.
pub open spec fn keeps_entries(
    ledger: Map<Seq<char>, Seq<u8>>,
    saved: Map<Seq<char>, Seq<u8>>,
    defs: Seq<TestAssetDef>,
    from: nat,
) -> bool {
    forall|name: Seq<char>| #[trigger]
        ledger.contains_key(name) ==> saved.contains_key(name) && (saved[name] == ledger[name]
            || exists|i: int| from <= i < defs.len() && (#[trigger] defs[i]).filename@ == name)
}

/// A run takes no name out of the hash list: every name that the ledger has
/// at the start is in the ledger that is saved, and has its hash unchanged
/// unless it is the name of one of the assets.
pub proof fn lemma_run_keeps_entries(
    ledger: Map<Seq<char>, Seq<u8>>,
    defs: Seq<TestAssetDef>,
    from: nat,
    outcomes: spec_fn(int) -> DownloadOutcome,
)
    ensures
        match run_from(ledger, defs, from, outcomes).ending {
            Ok(saved) => keeps_entries(ledger, saved, defs, from),
            Err(_) => true,
        },
    decreases defs.len() - from,
{
    if from < defs.len() {
        let def = defs[from as int];
        if expected_hash(def) is None {
        } else if is_cached(ledger, def) {
            lemma_run_keeps_entries(ledger, defs, from + 1, outcomes);
        } else {
            match outcomes(from as int) {
                DownloadOutcome::DownloadFailed(code) => {},
                DownloadOutcome::WithHash(found) => {
                    let after = ledger.insert(def.filename@, found@);
                    lemma_run_keeps_entries(after, defs, from + 1, outcomes);
                    match run_from(ledger, defs, from, outcomes).ending {
                        Ok(saved) => {
                            assert forall|name: Seq<char>| #[trigger]
                                ledger.contains_key(name) implies saved.contains_key(name) && (
                            saved[name] == ledger[name] || exists|i: int|
                                from <= i < defs.len() && (#[trigger] defs[i]).filename@
                                    == name) by {
                                assert(after.contains_key(name));
                                if name == def.filename@ {
                                    assert(defs[from as int].filename@ == name);
                                }
                            }
                        },
                        Err(_) => {},
                    }
                },
            }
        }
    }
}

} // verus!
