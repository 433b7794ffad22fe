//! The decisions of the application session: the CSV file chosen for an
//! import and the one preview that may still be applied, a restore waiting
//! for confirmation, the background training of a deck's scheduler
//! parameters, and the study queues shown on the main screen.
use vstd::prelude::*;
use crate::model::{
    ParsedCsv, ParsedCsvV, ImportPreview, ImportPreviewV, Mapping, MappingV, Snapshot, SnapshotV, Queue, Error,
    Result, invalid, fails_with, deck_pos, message_of,
};
use crate::library::Library;
use crate::import::{columns_ok, separator_ok, preview_of, written_ids};
use crate::learning::{queue_ok, queue_of};
use crate::ids::new_id;
use crate::text::text_eq;

verus! {

/// The CSV file chosen for import (with the token the screen holds for it)
/// and the latest preview made from it (with its own token).
#[derive(Debug)]
pub struct ImportCache {
    pub source: Option<(String, ParsedCsv)>,
    pub preview: Option<(String, ImportPreview)>,
}

pub struct ImportCacheV {
    pub source: Option<(Seq<char>, ParsedCsvV)>,
    pub preview: Option<(Seq<char>, ImportPreviewV)>,
}

impl View for ImportCache {
    type V = ImportCacheV;

    open spec fn view(&self) -> ImportCacheV {
        ImportCacheV {
            source: match self.source {
                Some((t, c)) => Some((t@, c@)),
                None => None,
            },
            preview: match self.preview {
                Some((t, p)) => Some((t@, p@)),
                None => None,
            },
        }
    }
}

/// The preview that applying with `token` uses, if the token is that of the
/// latest preview.
pub open spec fn claimable(c: ImportCacheV, token: Seq<char>) -> Option<ImportPreviewV> {
    match c.preview {
        Some((t, p)) => if t == token {
            Some(p)
        } else {
            None
        },
        None => None,
    }
}

/// What previewing the chosen file `csv` into the deck gives: the source is
/// kept; the preview is the new one under the returned token, or none when the
/// library refuses the preview.
pub open spec fn previewed(
    c: ImportCacheV,
    d: ImportCacheV,
    s: SnapshotV,
    deck: Seq<char>,
    m: MappingV,
    now: i64,
    csv: ParsedCsvV,
    r: Result<String>,
) -> bool {
    let ok = deck_pos(s.decks, deck) >= 0 && columns_ok(m, csv.headers.len() as nat) && separator_ok(m);
    &&& d.source == c.source
    &&& deck_pos(s.decks, deck) < 0 ==> fails_with(r, "単語帳が見つかりません。"@)
    &&& deck_pos(s.decks, deck) >= 0 && !columns_ok(m, csv.headers.len() as nat) ==> fails_with(
        r,
        "列の割り当てを確認してください。同じ列は複数の役割に使えません。"@,
    )
    &&& deck_pos(s.decks, deck) >= 0 && columns_ok(m, csv.headers.len() as nat) && !separator_ok(m)
        ==> fails_with(r, "選択肢の区切り文字を入力してください。"@)
    &&& r is Ok <==> ok
    &&& r is Err ==> d.preview is None
    &&& (r matches Ok(token) ==> (d.preview matches Some((t, p)) && t == token@ && p == preview_of(
        s,
        deck,
        csv,
        m,
        now,
        written_ids(p),
    )))
}

/// The outcome of a preview request for the file with token `source`: refused
/// without change when no file is chosen or another one is; otherwise as
/// `previewed` says.
pub open spec fn preview_outcome(
    c: ImportCacheV,
    d: ImportCacheV,
    source: Seq<char>,
    s: SnapshotV,
    deck: Seq<char>,
    m: MappingV,
    now: i64,
    r: Result<String>,
) -> bool {
    match c.source {
        None => fails_with(r, "CSVを選択してください。"@) && d == c,
        Some((t, csv)) => if t != source {
            fails_with(r, "CSVの選択が変わりました。選び直してください。"@) && d == c
        } else {
            previewed(c, d, s, deck, m, now, csv, r)
        },
    }
}

impl ImportCache {
    /// Nothing chosen, nothing previewed.
    pub fn new() -> (r: ImportCache)
        ensures
            r@.source is None,
            r@.preview is None,
    {
        ImportCache { source: None, preview: None }
    }

    /// A CSV file was chosen: it becomes the source and the previous preview
    /// can no longer be applied.
    pub fn select(&mut self, token: String, csv: ParsedCsv)
        ensures
            final(self)@.source == Some((token@, csv@)),
            final(self)@.preview is None,
    {
        self.source = Some((token, csv));
        self.preview = None;
    }

    /// Forgets the chosen file and its preview.
    pub fn discard(&mut self)
        ensures
            final(self)@.source is None,
            final(self)@.preview is None,
    {
        self.source = None;
        self.preview = None;
    }

    /// Previews importing the chosen file into the deck and keeps the preview
    /// under a new token, which is returned. A request for a file other than
    /// the one chosen changes nothing; a preview that fails leaves no preview
    /// to apply.
    pub fn preview(&mut self, lib: &Library, source_token: &str, deck: &str, mapping: Mapping, now: i64) -> (r:
        Result<String>)
        requires
            (old(self)@.source matches Some((_, c)) ==> c.rows.len() <= usize::MAX - 2),
        ensures
            preview_outcome(old(self)@, final(self)@, source_token@, lib@, deck@, mapping@, now, r),
    {
        let csv = match &self.source {
            None => {
                return Err(invalid("CSVを選択してください。"));
            },
            Some((token, csv)) => {
                if !text_eq(token.as_str(), source_token) {
                    return Err(invalid("CSVの選択が変わりました。選び直してください。"));
                }
                csv
            },
        };
        let result = lib.preview_import(deck, csv, mapping, now);
        self.preview = None;
        match result {
            Err(e) => Err(e),
            Ok(p) => {
                let token = new_id();
                self.preview = Some((token.clone(), p));
                Ok(token)
            },
        }
    }

    /// The latest preview, when `token` is its token.
    pub fn preview_for(&self, token: &str) -> (r: Result<ImportPreview>)
        ensures
            claimable(self@, token@) is None ==> fails_with(r, "更新内容をもう一度プレビューしてください。"@),
            (claimable(self@, token@) matches Some(p) ==> (r matches Ok(q) && q@ == p)),
    {
        match &self.preview {
            Some((saved, p)) => {
                if text_eq(saved.as_str(), token) {
                    Ok(p.copy())
                } else {
                    Err(invalid("更新内容をもう一度プレビューしてください。"))
                }
            },
            None => Err(invalid("更新内容をもう一度プレビューしてください。")),
        }
    }

    /// After the preview with `token` was applied: forgets the file and the
    /// preview, unless a newer preview has replaced it meanwhile.
    pub fn applied(&mut self, token: &str)
        ensures
            claimable(old(self)@, token@) is Some ==> final(self)@.source is None && final(self)@.preview is None,
            claimable(old(self)@, token@) is None ==> final(self)@ == old(self)@,
    {
        let same = match &self.preview {
            Some((saved, _)) => text_eq(saved.as_str(), token),
            None => false,
        };
        if same {
            self.source = None;
            self.preview = None;
        }
    }
}

/// A backup that was read and checked, waiting for the learner to confirm
/// that it replaces the library at `revision`.
#[derive(Debug)]
pub struct RestoreCandidate {
    pub token: String,
    pub revision: u64,
    pub snapshot: Snapshot,
}

/// A restore waits under the token.
pub open spec fn restore_waiting(slot: Option<RestoreCandidate>, token: Seq<char>) -> bool {
    slot matches Some(c) && c.token@ == token
}

/// Takes the waiting restore when `token` is its token; otherwise it stays.
pub fn take_restore(slot: &mut Option<RestoreCandidate>, token: &str) -> (r: Result<RestoreCandidate>)
    ensures
        restore_waiting(*old(slot), token@) ==> (r matches Ok(x) && Some(x) == *old(slot)) && *final(slot) is None,
        !restore_waiting(*old(slot), token@) ==> fails_with(r, "復元内容をもう一度確認してください。"@)
            && *final(slot) == *old(slot),
{
    let matches = match slot {
        Some(c) => text_eq(c.token.as_str(), token),
        None => false,
    };
    if !matches {
        return Err(invalid("復元内容をもう一度確認してください。"));
    }
    match slot.take() {
        Some(c) => Ok(c),
        None => Err(invalid("復元内容がありません。")),
    }
}

/// Where the training of a deck's parameters stands.
#[derive(Clone, Copy, Debug, PartialEq, Eq, Structural)]
pub enum JobStatus {
    Idle,
    Running,
    Ready,
    Cancelled,
    Failed,
    Applied,
}

/// The training of a deck's scheduler parameters, run in the background.
/// `revision` is the library revision it trains on; `parameters` the trained
/// values (binary32 patterns) once they are ready.
#[derive(Debug)]
pub struct OptimizationJob {
    pub deck: Option<String>,
    pub revision: u64,
    pub status: JobStatus,
    pub message: String,
    pub parameters: Option<Vec<u32>>,
}

pub struct JobV {
    pub deck: Option<Seq<char>>,
    pub revision: u64,
    pub status: JobStatus,
    pub message: Seq<char>,
    pub parameters: Option<Seq<u32>>,
}

impl View for OptimizationJob {
    type V = JobV;

    open spec fn view(&self) -> JobV {
        JobV {
            deck: match self.deck {
                Some(d) => Some(d@),
                None => None,
            },
            revision: self.revision,
            status: self.status,
            message: self.message@,
            parameters: match self.parameters {
                Some(p) => Some(p@),
                None => None,
            },
        }
    }
}

/// The job after a cancellation request.
pub open spec fn job_cancelled(j: JobV) -> JobV {
    if j.status == JobStatus::Ready {
        JobV {
            status: JobStatus::Cancelled,
            parameters: None,
            message: "計算結果を破棄しました。設定は変更していません。"@,
            ..j
        }
    } else {
        j
    }
}

/// The job after the training ended, `aborted` telling whether cancellation
/// had been requested, with the training's outcome.
pub open spec fn job_finished(j: JobV, aborted: bool, outcome: std::result::Result<Seq<u32>, Seq<char>>) -> JobV {
    if aborted {
        JobV { status: JobStatus::Cancelled, message: "計算を中断しました。設定は変更していません。"@, ..j }
    } else {
        match outcome {
            Ok(p) => JobV {
                status: JobStatus::Ready,
                parameters: Some(p),
                message: "計算が完了しました。適用すると今後の復習に使用します。"@,
                ..j
            },
            Err(m) => JobV { status: JobStatus::Failed, message: m, ..j },
        }
    }
}

/// What applying the job's result uses (deck, revision, parameters), or the
/// message of the refusal.
pub open spec fn job_result(j: JobV, aborted: bool) -> std::result::Result<
    (Seq<char>, u64, Seq<u32>),
    Seq<char>,
> {
    if j.status != JobStatus::Ready || aborted {
        Err("適用できる計算結果がありません。"@)
    } else if j.deck is None {
        Err("単語帳がありません。"@)
    } else if j.parameters is None {
        Err("計算結果がありません。"@)
    } else {
        Ok((j.deck->0, j.revision, j.parameters->0))
    }
}

impl OptimizationJob {
    /// No training has run.
    pub fn new() -> (r: OptimizationJob)
        ensures
            r@.status == JobStatus::Idle,
            r@.deck is None,
            r@.revision == 0,
            r@.message.len() == 0,
            r@.parameters is None,
    {
        OptimizationJob {
            deck: None,
            revision: 0,
            status: JobStatus::Idle,
            message: String::new(),
            parameters: None,
        }
    }

    /// The status as the screen names it.
    pub fn status_text(&self) -> (t: &'static str)
        ensures
            self.status == JobStatus::Idle ==> t@ == "idle"@,
            self.status == JobStatus::Running ==> t@ == "running"@,
            self.status == JobStatus::Ready ==> t@ == "ready"@,
            self.status == JobStatus::Cancelled ==> t@ == "cancelled"@,
            self.status == JobStatus::Failed ==> t@ == "failed"@,
            self.status == JobStatus::Applied ==> t@ == "applied"@,
    {
        match self.status {
            JobStatus::Idle => "idle",
            JobStatus::Running => "running",
            JobStatus::Ready => "ready",
            JobStatus::Cancelled => "cancelled",
            JobStatus::Failed => "failed",
            JobStatus::Applied => "applied",
        }
    }

    /// Starts training the deck's parameters on the library as it is now;
    /// refused while another training runs.
    pub fn start(&mut self, lib: &Library, deck: &str) -> (r: Result<()>)
        ensures
            deck_pos(lib@.decks, deck@) < 0 ==> fails_with(r, "単語帳が見つかりません。"@),
            deck_pos(lib@.decks, deck@) >= 0 && old(self)@.status == JobStatus::Running ==> fails_with(
                r,
                "現在の計算が終わるか、中断してから再実行してください。"@,
            ),
            r is Err ==> final(self)@ == old(self)@,
            r is Ok <==> deck_pos(lib@.decks, deck@) >= 0 && old(self)@.status != JobStatus::Running,
            r is Ok ==> final(self)@ == (JobV {
                deck: Some(deck@),
                revision: lib@.revision,
                status: JobStatus::Running,
                message: "端末内で計算しています。"@,
                parameters: None,
            }),
    {
        lib.deck(deck)?;
        if self.status == JobStatus::Running {
            return Err(invalid("現在の計算が終わるか、中断してから再実行してください。"));
        }
        self.deck = Some(deck.to_owned());
        self.revision = lib.state.revision;
        self.status = JobStatus::Running;
        self.message = "端末内で計算しています。".to_owned();
        self.parameters = None;
        Ok(())
    }

    /// Records the end of the training.
    pub fn finish(&mut self, aborted: bool, outcome: Result<Vec<u32>>)
        ensures
            final(self)@ == job_finished(
                old(self)@,
                aborted,
                match outcome {
                    Ok(p) => Ok(p@),
                    Err(e) => Err(message_of(e)),
                },
            ),
    {
        if aborted {
            self.status = JobStatus::Cancelled;
            self.message = "計算を中断しました。設定は変更していません。".to_owned();
        } else {
            match outcome {
                Ok(p) => {
                    self.parameters = Some(p);
                    self.status = JobStatus::Ready;
                    self.message = "計算が完了しました。適用すると今後の復習に使用します。".to_owned();
                },
                Err(e) => {
                    self.status = JobStatus::Failed;
                    self.message = e.message();
                },
            }
        }
    }

    /// A cancellation request: a result that is ready is discarded.
    pub fn cancel(&mut self)
        ensures
            final(self)@ == job_cancelled(old(self)@),
    {
        if self.status == JobStatus::Ready {
            self.parameters = None;
            self.status = JobStatus::Cancelled;
            self.message = "計算結果を破棄しました。設定は変更していません。".to_owned();
        }
    }

    /// The deck, revision and parameters to apply, when a result is ready and
    /// no cancellation was requested.
    pub fn result(&self, aborted: bool) -> (r: Result<(String, u64, Vec<u32>)>)
        ensures
            (job_result(self@, aborted) matches Err(m) ==> fails_with(r, m)),
            (job_result(self@, aborted) matches Ok((d, v, p)) ==> (r matches Ok((d2, v2, p2)) && d2@ == d
                && v2 == v && p2@ == p)),
    {
        if self.status != JobStatus::Ready || aborted {
            return Err(invalid("適用できる計算結果がありません。"));
        }
        let deck = match &self.deck {
            Some(d) => d.clone(),
            None => {
                return Err(invalid("単語帳がありません。"));
            },
        };
        let parameters = match &self.parameters {
            Some(p) => p.clone(),
            None => {
                return Err(invalid("計算結果がありません。"));
            },
        };
        Ok((deck, self.revision, parameters))
    }

    /// Records that the result was applied.
    pub fn applied(&mut self)
        ensures
            final(self)@ == (JobV {
                status: JobStatus::Applied,
                message: "今後の復習に使う設定を更新しました。"@,
                parameters: None,
                ..old(self)@
            }),
    {
        self.status = JobStatus::Applied;
        self.message = "今後の復習に使う設定を更新しました。".to_owned();
        self.parameters = None;
    }
}

impl Library {
    /// The study queue of every deck, in deck order; the first failure is returned.
    pub fn queues(&self, now: i64) -> (r: Result<Vec<(String, Queue)>>)
        requires
            self@.reviews.len() <= u32::MAX,
        ensures
            (r matches Ok(v) ==> v.len() == self@.decks.len() && forall|i: int|
                0 <= i < v.len() ==> v@[i].0@ == self@.decks[i].id && queue_ok(
                    self@,
                    self@.decks[i].id,
                    now as int,
                    Ok(v@[i].1),
                )),
            (r matches Err(e) ==> exists|i: int|
                0 <= i < self@.decks.len() && queue_ok(self@, self@.decks[i].id, now as int, Err(e))
                    && forall|k: int| 0 <= k < i ==> queue_of(self@, #[trigger] self@.decks[k].id, now as int) is Ok),
    {
        let mut out: Vec<(String, Queue)> = Vec::new();
        let mut i: usize = 0;
        while i < self.state.decks.len()
            invariant
                i <= self.state.decks.len(),
                self@.reviews.len() <= u32::MAX,
                out.len() == i,
                forall|k: int|
                    0 <= k < i ==> out@[k].0@ == self@.decks[k].id && queue_ok(
                        self@,
                        self@.decks[k].id,
                        now as int,
                        Ok(out@[k].1),
                    ),
                forall|k: int| 0 <= k < i ==> queue_of(self@, #[trigger] self@.decks[k].id, now as int) is Ok,
            decreases self.state.decks.len() - i,
        {
            let id = &self.state.decks[i].id;
            let q = self.queue(id.as_str(), now);
            assert(queue_ok(self@, self@.decks[i as int].id, now as int, q));
            match q {
                Ok(q) => {
                    out.push((id.clone(), q));
                },
                Err(e) => {
                    return Err(e);
                },
            }
            i = i + 1;
        }
        Ok(out)
    }
}

/// Number of the cards of the snapshot that belong to the deck.
fn count_deck_cards(s: &Snapshot, deck: &String) -> (n: usize)
    ensures
        n == s@.cards.filter(|c: crate::model::CardV| c.deck_id == deck@).len(),
{
    let ghost cs = s@.cards;
    let mut n: usize = 0;
    let mut i: usize = 0;
    while i < s.cards.len()
        invariant
            i <= s.cards.len(),
            cs == s@.cards,
            cs.len() == s.cards.len(),
            n == cs.take(i as int).filter(|c: crate::model::CardV| c.deck_id == deck@).len(),
            n <= i,
        decreases s.cards.len() - i,
    {
        proof {
            assert(cs.take(i + 1) =~= cs.take(i as int).push(cs[i as int]));
            crate::library::lemma_filter_push(cs.take(i as int), cs[i as int], |c: crate::model::CardV| c.deck_id == deck@);
        }
        if s.cards[i].deck_id == *deck {
            n = n + 1;
        }
        i = i + 1;
    }
    assert(cs.take(s.cards.len() as int) =~= cs);
    n
}

/// What a backup holds, as shown before it is restored: each deck's name and
/// number of cards, in deck order.
pub fn deck_card_counts(s: &Snapshot) -> (r: Vec<(String, usize)>)
    ensures
        r.len() == s@.decks.len(),
        forall|i: int|
            0 <= i < r.len() ==> r@[i].0@ == s@.decks[i].name && r@[i].1 == s@.cards.filter(
                |c: crate::model::CardV| c.deck_id == s@.decks[i].id,
            ).len(),
{
    let mut r: Vec<(String, usize)> = Vec::new();
    let mut i: usize = 0;
    while i < s.decks.len()
        invariant
            i <= s.decks.len(),
            r.len() == i,
            forall|k: int|
                0 <= k < i ==> r@[k].0@ == s@.decks[k].name && r@[k].1 == s@.cards.filter(
                    |c: crate::model::CardV| c.deck_id == s@.decks[k].id,
                ).len(),
        decreases s.decks.len() - i,
    {
        let d = &s.decks[i];
        let n = count_deck_cards(s, &d.id);
        r.push((d.name.clone(), n));
        i = i + 1;
    }
    r
}

} // verus!
