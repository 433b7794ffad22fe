//! The library's data: decks, cards, review history, daily bonuses and the
//! whole-library snapshot, each with a mathematical view used by the contracts.
//!
//! Values that the scheduler computes as IEEE-754 binary32 numbers (target
//! retention, memory stability and difficulty, scheduler parameters) are held
//! here as their 32-bit patterns. Comparisons that the library makes on them are
//! stated over those patterns (see `binary32_*` below).
use vstd::prelude::*;

verus! {

/// Version of the snapshot format (the format with multiple-choice data).
pub const SCHEMA_VERSION: u32 = 2;

/// The scheduler every review and deck records.
pub const ALGORITHM: &'static str = "FSRS-6 / fsrs-rs 6.6.2";

/// The only kind of failure that the library's own rules produce is `Invalid`,
/// carrying the message shown to the learner. The other variants stand for
/// failures of the storage, file, serialisation and scheduling layers.
#[derive(Debug)]
pub enum Error {
    Invalid(String),
    Storage,
    Io,
    Json,
    Fsrs,
}

pub type Result<T> = std::result::Result<T, Error>;

/// The message carried by an error, as the learner sees it (empty for the
/// non-`Invalid` variants, whose text `Error::message` gives).
pub open spec fn error_text(e: Error) -> Seq<char> {
    match e {
        Error::Invalid(m) => m@,
        _ => Seq::empty(),
    }
}

/// `r` failed with the `Invalid` error whose message is `msg`.
pub open spec fn fails_with<T>(r: Result<T>, msg: Seq<char>) -> bool {
    r matches Err(e) && e is Invalid && error_text(e) == msg
}

pub fn invalid(message: &str) -> (e: Error)
    ensures
        e is Invalid,
        error_text(e) == message@,
{
    Error::Invalid(message.to_owned())
}

/// The text shown to the learner for an error.
pub open spec fn message_of(e: Error) -> Seq<char> {
    match e {
        Error::Invalid(m) => m@,
        Error::Storage => "保存処理に失敗しました。現在のデータは変更されていません。"@,
        Error::Io => "ファイルの読み書きに失敗しました。"@,
        Error::Json => "データ形式を読み取れません。"@,
        Error::Fsrs => "学習計算に失敗しました。"@,
    }
}

impl Error {
    /// The text shown to the learner for this error.
    pub fn message(&self) -> (m: String)
        ensures
            m@ == message_of(*self),
    {
        match self {
            Error::Invalid(m) => m.clone(),
            Error::Storage => "保存処理に失敗しました。現在のデータは変更されていません。".to_owned(),
            Error::Io => "ファイルの読み書きに失敗しました。".to_owned(),
            Error::Json => "データ形式を読み取れません。".to_owned(),
            Error::Fsrs => "学習計算に失敗しました。".to_owned(),
        }
    }
}

// ---------------------------------------------------------------------------
// binary32 bit patterns

/// The pattern is a finite number (its exponent field is not all ones).
pub open spec fn binary32_finite(bits: u32) -> bool {
    bits % 0x8000_0000 < 0x7F80_0000
}

/// The pattern is a finite number greater than zero.
pub open spec fn binary32_positive(bits: u32) -> bool {
    0 < bits < 0x7F80_0000
}

/// The pattern is a finite number strictly between 0 and 1.
pub open spec fn binary32_unit_open(bits: u32) -> bool {
    0 < bits < 0x3F80_0000
}

/// The pattern is a finite number in [1, 10].
pub open spec fn binary32_one_to_ten(bits: u32) -> bool {
    0x3F80_0000 <= bits <= 0x4120_0000
}

/// Bit pattern of the binary32 value 0.9.
pub const RETENTION_DEFAULT: u32 = 0x3F66_6666;

// ---------------------------------------------------------------------------
// Types

#[derive(Clone, Debug, PartialEq, Eq)]
pub struct Settings {
    pub timezone: String,
    pub day_start_hour: u32,
}

pub struct SettingsV {
    pub timezone: Seq<char>,
    pub day_start_hour: u32,
}

impl View for Settings {
    type V = SettingsV;

    open spec fn view(&self) -> SettingsV {
        SettingsV { timezone: self.timezone@, day_start_hour: self.day_start_hour }
    }
}

#[derive(Clone, Debug, PartialEq, Eq)]
pub struct Mapping {
    pub question: usize,
    pub answer: usize,
    pub explanation: Option<usize>,
    pub id: Option<usize>,
    pub choices: Vec<usize>,
    pub choice_separator: Option<String>,
}

pub struct MappingV {
    pub question: usize,
    pub answer: usize,
    pub explanation: Option<usize>,
    pub id: Option<usize>,
    pub choices: Seq<usize>,
    pub choice_separator: Option<Seq<char>>,
}

pub open spec fn opt_text(o: Option<String>) -> Option<Seq<char>> {
    match o {
        Some(s) => Some(s@),
        None => None,
    }
}

impl View for Mapping {
    type V = MappingV;

    open spec fn view(&self) -> MappingV {
        MappingV {
            question: self.question,
            answer: self.answer,
            explanation: self.explanation,
            id: self.id,
            choices: self.choices@,
            choice_separator: opt_text(self.choice_separator),
        }
    }
}

#[derive(Clone, Debug, PartialEq, Eq)]
pub struct Deck {
    pub id: String,
    pub name: String,
    pub created_at: i64,
    /// binary32 pattern of the target retention
    pub retention: u32,
    pub new_limit: u32,
    pub review_limit: Option<u32>,
    /// binary32 patterns of the scheduler parameters
    pub parameters: Vec<u32>,
    pub parameter_version: String,
    pub mapping: Option<Mapping>,
}

pub struct DeckV {
    pub id: Seq<char>,
    pub name: Seq<char>,
    pub created_at: i64,
    pub retention: u32,
    pub new_limit: u32,
    pub review_limit: Option<u32>,
    pub parameters: Seq<u32>,
    pub parameter_version: Seq<char>,
    pub mapping: Option<MappingV>,
}

pub open spec fn opt_mapping(o: Option<Mapping>) -> Option<MappingV> {
    match o {
        Some(m) => Some(m@),
        None => None,
    }
}

impl View for Deck {
    type V = DeckV;

    open spec fn view(&self) -> DeckV {
        DeckV {
            id: self.id@,
            name: self.name@,
            created_at: self.created_at,
            retention: self.retention,
            new_limit: self.new_limit,
            review_limit: self.review_limit,
            parameters: self.parameters@,
            parameter_version: self.parameter_version@,
            mapping: opt_mapping(self.mapping),
        }
    }
}

/// Memory and due state of one card. Plain values only, compared field by field.
#[derive(Clone, Copy, Debug, PartialEq, Eq, Structural)]
pub struct Schedule {
    /// binary32 pattern of the memory stability
    pub stability: Option<u32>,
    /// binary32 pattern of the memory difficulty
    pub difficulty: Option<u32>,
    pub last_review: Option<i64>,
    pub due: Option<i64>,
    pub reps: u32,
    pub lapses: u32,
}

/// The state of a card that was never reviewed.
pub open spec fn unlearned() -> Schedule {
    Schedule {
        stability: None,
        difficulty: None,
        last_review: None,
        due: None,
        reps: 0,
        lapses: 0,
    }
}

impl Default for Schedule {
    /// The schedule of a card that was never reviewed.
    fn default() -> (s: Schedule)
        ensures
            s == unlearned(),
    {
        Schedule::unlearned()
    }
}

impl Schedule {
    pub fn unlearned() -> (s: Schedule)
        ensures
            s == unlearned(),
    {
        Schedule {
            stability: None,
            difficulty: None,
            last_review: None,
            due: None,
            reps: 0,
            lapses: 0,
        }
    }
}

#[derive(Clone, Debug, PartialEq, Eq)]
pub struct Choice {
    pub label: String,
    pub text: String,
}

pub struct ChoiceV {
    pub label: Seq<char>,
    pub text: Seq<char>,
}

impl View for Choice {
    type V = ChoiceV;

    open spec fn view(&self) -> ChoiceV {
        ChoiceV { label: self.label@, text: self.text@ }
    }
}

#[derive(Clone, Debug, PartialEq, Eq)]
pub struct Card {
    pub id: String,
    pub deck_id: String,
    pub source_id: Option<String>,
    pub question: String,
    pub answer: String,
    pub explanation: String,
    pub choices: Vec<Choice>,
    pub created_at: i64,
    pub schedule: Schedule,
}

pub struct CardV {
    pub id: Seq<char>,
    pub deck_id: Seq<char>,
    pub source_id: Option<Seq<char>>,
    pub question: Seq<char>,
    pub answer: Seq<char>,
    pub explanation: Seq<char>,
    pub choices: Seq<ChoiceV>,
    pub created_at: i64,
    pub schedule: Schedule,
}

pub open spec fn choices_view(v: Seq<Choice>) -> Seq<ChoiceV> {
    v.map_values(|c: Choice| c@)
}

impl View for Card {
    type V = CardV;

    open spec fn view(&self) -> CardV {
        CardV {
            id: self.id@,
            deck_id: self.deck_id@,
            source_id: opt_text(self.source_id),
            question: self.question@,
            answer: self.answer@,
            explanation: self.explanation@,
            choices: choices_view(self.choices@),
            created_at: self.created_at,
            schedule: self.schedule,
        }
    }
}

#[derive(Clone, Debug, PartialEq, Eq)]
pub struct Review {
    pub id: String,
    pub card_id: String,
    pub deck_id: String,
    pub at: i64,
    pub rating: u32,
    pub elapsed_days: u32,
    pub study_day: String,
    pub kind: String,
    pub before: Schedule,
    pub after: Schedule,
    pub parameters: Vec<u32>,
    pub algorithm: String,
}

pub struct ReviewV {
    pub id: Seq<char>,
    pub card_id: Seq<char>,
    pub deck_id: Seq<char>,
    pub at: i64,
    pub rating: u32,
    pub elapsed_days: u32,
    pub study_day: Seq<char>,
    pub kind: Seq<char>,
    pub before: Schedule,
    pub after: Schedule,
    pub parameters: Seq<u32>,
    pub algorithm: Seq<char>,
}

impl View for Review {
    type V = ReviewV;

    open spec fn view(&self) -> ReviewV {
        ReviewV {
            id: self.id@,
            card_id: self.card_id@,
            deck_id: self.deck_id@,
            at: self.at,
            rating: self.rating,
            elapsed_days: self.elapsed_days,
            study_day: self.study_day@,
            kind: self.kind@,
            before: self.before,
            after: self.after,
            parameters: self.parameters@,
            algorithm: self.algorithm@,
        }
    }
}

#[derive(Clone, Debug, PartialEq, Eq)]
pub struct Bonus {
    pub id: String,
    pub deck_id: String,
    pub day: String,
    pub new: u32,
    pub review: u32,
}

pub struct BonusV {
    pub id: Seq<char>,
    pub deck_id: Seq<char>,
    pub day: Seq<char>,
    pub new: u32,
    pub review: u32,
}

impl View for Bonus {
    type V = BonusV;

    open spec fn view(&self) -> BonusV {
        BonusV {
            id: self.id@,
            deck_id: self.deck_id@,
            day: self.day@,
            new: self.new,
            review: self.review,
        }
    }
}

#[derive(Clone, Debug, PartialEq, Eq)]
pub struct Snapshot {
    pub schema: u32,
    pub revision: u64,
    pub settings: Settings,
    pub decks: Vec<Deck>,
    pub cards: Vec<Card>,
    pub reviews: Vec<Review>,
    pub bonuses: Vec<Bonus>,
}

pub struct SnapshotV {
    pub schema: u32,
    pub revision: u64,
    pub settings: SettingsV,
    pub decks: Seq<DeckV>,
    pub cards: Seq<CardV>,
    pub reviews: Seq<ReviewV>,
    pub bonuses: Seq<BonusV>,
}

pub open spec fn decks_view(v: Seq<Deck>) -> Seq<DeckV> {
    v.map_values(|d: Deck| d@)
}

pub open spec fn cards_view(v: Seq<Card>) -> Seq<CardV> {
    v.map_values(|c: Card| c@)
}

pub open spec fn reviews_view(v: Seq<Review>) -> Seq<ReviewV> {
    v.map_values(|r: Review| r@)
}

pub open spec fn bonuses_view(v: Seq<Bonus>) -> Seq<BonusV> {
    v.map_values(|b: Bonus| b@)
}

impl View for Snapshot {
    type V = SnapshotV;

    open spec fn view(&self) -> SnapshotV {
        SnapshotV {
            schema: self.schema,
            revision: self.revision,
            settings: self.settings@,
            decks: decks_view(self.decks@),
            cards: cards_view(self.cards@),
            reviews: reviews_view(self.reviews@),
            bonuses: bonuses_view(self.bonuses@),
        }
    }
}

#[derive(Clone, Debug, PartialEq, Eq)]
pub struct ParsedCsv {
    pub headers: Vec<String>,
    pub rows: Vec<Vec<String>>,
    pub row_lines: Vec<usize>,
}

pub struct ParsedCsvV {
    pub headers: Seq<Seq<char>>,
    pub rows: Seq<Seq<Seq<char>>>,
    pub row_lines: Seq<usize>,
}

pub open spec fn texts_view(v: Seq<String>) -> Seq<Seq<char>> {
    v.map_values(|s: String| s@)
}

impl View for ParsedCsv {
    type V = ParsedCsvV;

    open spec fn view(&self) -> ParsedCsvV {
        ParsedCsvV {
            headers: texts_view(self.headers@),
            rows: self.rows@.map_values(|r: Vec<String>| texts_view(r@)),
            row_lines: self.row_lines@,
        }
    }
}

#[derive(Clone, Debug, PartialEq, Eq)]
pub struct Change {
    pub line: usize,
    pub source_lines: Vec<usize>,
    pub notes: Vec<String>,
    pub kind: String,
    pub before: Option<Card>,
    pub after: Card,
}

pub struct ChangeV {
    pub line: usize,
    pub source_lines: Seq<usize>,
    pub notes: Seq<Seq<char>>,
    pub kind: Seq<char>,
    pub before: Option<CardV>,
    pub after: CardV,
}

pub open spec fn opt_card(o: Option<Card>) -> Option<CardV> {
    match o {
        Some(c) => Some(c@),
        None => None,
    }
}

impl View for Change {
    type V = ChangeV;

    open spec fn view(&self) -> ChangeV {
        ChangeV {
            line: self.line,
            source_lines: self.source_lines@,
            notes: texts_view(self.notes@),
            kind: self.kind@,
            before: opt_card(self.before),
            after: self.after@,
        }
    }
}

#[derive(Clone, Debug, PartialEq, Eq)]
pub struct CsvIssue {
    pub line: usize,
    pub message: String,
}

pub struct CsvIssueV {
    pub line: usize,
    pub message: Seq<char>,
}

impl View for CsvIssue {
    type V = CsvIssueV;

    open spec fn view(&self) -> CsvIssueV {
        CsvIssueV { line: self.line, message: self.message@ }
    }
}

#[derive(Clone, Debug, PartialEq, Eq)]
pub struct ImportPreview {
    pub revision: u64,
    pub deck_id: String,
    pub mapping: Mapping,
    pub changes: Vec<Change>,
    pub errors: Vec<CsvIssue>,
    pub missing: usize,
    pub merged_rows: usize,
}

pub struct ImportPreviewV {
    pub revision: u64,
    pub deck_id: Seq<char>,
    pub mapping: MappingV,
    pub changes: Seq<ChangeV>,
    pub errors: Seq<CsvIssueV>,
    pub missing: usize,
    pub merged_rows: usize,
}

impl View for ImportPreview {
    type V = ImportPreviewV;

    open spec fn view(&self) -> ImportPreviewV {
        ImportPreviewV {
            revision: self.revision,
            deck_id: self.deck_id@,
            mapping: self.mapping@,
            changes: self.changes@.map_values(|c: Change| c@),
            errors: self.errors@.map_values(|e: CsvIssue| e@),
            missing: self.missing,
            merged_rows: self.merged_rows,
        }
    }
}

#[derive(Clone, Debug, PartialEq, Eq)]
pub struct Queue {
    pub day: String,
    pub card_ids: Vec<String>,
    pub remaining_new: usize,
    pub due_reviews: usize,
    pub new_used: u32,
    pub review_used: u32,
    pub new_limit: u32,
    pub review_limit: Option<u32>,
    pub new_bonus: u32,
    pub review_bonus: u32,
}

} // verus!

verus! {

/// Index of the first element of `s` that satisfies `p`, or -1.
pub open spec fn first_where<A>(s: Seq<A>, p: spec_fn(A) -> bool) -> int {
    if exists|i: int| 0 <= i < s.len() && p(s[i]) && forall|k: int| 0 <= k < i ==> !p(s[k]) {
        choose|i: int| 0 <= i < s.len() && p(s[i]) && forall|k: int| 0 <= k < i ==> !p(s[k])
    } else {
        -1
    }
}

pub proof fn lemma_first_where_at<A>(s: Seq<A>, p: spec_fn(A) -> bool, i: int)
    requires
        0 <= i < s.len(),
        p(s[i]),
        forall|k: int| 0 <= k < i ==> !p(s[k]),
    ensures
        first_where(s, p) == i,
{
    let j = first_where(s, p);
    assert(0 <= j < s.len() && p(s[j]) && forall|k: int| 0 <= k < j ==> !p(s[k]));
    if j < i {
        assert(!p(s[j]));
    } else if j > i {
        assert(!p(s[i]));
    }
}

pub proof fn lemma_first_where_none<A>(s: Seq<A>, p: spec_fn(A) -> bool)
    requires
        forall|k: int| 0 <= k < s.len() ==> !p(s[k]),
    ensures
        first_where(s, p) == -1,
{
}

pub proof fn lemma_first_where_some<A>(s: Seq<A>, p: spec_fn(A) -> bool, t: int)
    requires
        0 <= t < s.len(),
        p(s[t]),
    ensures
        first_where(s, p) >= 0,
    decreases t,
{
    if forall|k: int| 0 <= k < t ==> !p(s[k]) {
        lemma_first_where_at(s, p, t);
    } else {
        let k = choose|k: int| 0 <= k < t && p(s[k]);
        lemma_first_where_some(s, p, k);
    }
}

pub proof fn lemma_first_where_found<A>(s: Seq<A>, p: spec_fn(A) -> bool)
    requires
        first_where(s, p) >= 0,
    ensures
        0 <= first_where(s, p) < s.len(),
        p(s[first_where(s, p)]),
        forall|k: int| 0 <= k < first_where(s, p) ==> !p(s[k]),
{
}

/// Index of the first deck with the given id, or -1.
pub open spec fn deck_pos(decks: Seq<DeckV>, id: Seq<char>) -> int {
    first_where(decks, |d: DeckV| d.id == id)
}

/// Index of the first card with the given id, or -1.
pub open spec fn card_pos(cards: Seq<CardV>, id: Seq<char>) -> int {
    first_where(cards, |c: CardV| c.id == id)
}

impl Choice {
    pub fn copy(&self) -> (r: Choice)
        ensures
            r@ == self@,
    {
        Choice { label: self.label.clone(), text: self.text.clone() }
    }
}

pub fn copy_choices(v: &Vec<Choice>) -> (r: Vec<Choice>)
    ensures
        choices_view(r@) == choices_view(v@),
{
    let mut r: Vec<Choice> = Vec::new();
    let mut i: usize = 0;
    while i < v.len()
        invariant
            i <= v.len(),
            r.len() == i,
            forall|j: int| 0 <= j < i ==> r@[j]@ == v@[j]@,
        decreases v.len() - i,
    {
        r.push(v[i].copy());
        i = i + 1;
    }
    assert(choices_view(r@) =~= choices_view(v@));
    r
}

impl Mapping {
    pub fn copy(&self) -> (r: Mapping)
        ensures
            r@ == self@,
    {
        Mapping {
            question: self.question,
            answer: self.answer,
            explanation: self.explanation,
            id: self.id,
            choices: self.choices.clone(),
            choice_separator: crate::text::copy_opt_text(&self.choice_separator),
        }
    }
}

impl Card {
    pub fn copy(&self) -> (r: Card)
        ensures
            r@ == self@,
    {
        Card {
            id: self.id.clone(),
            deck_id: self.deck_id.clone(),
            source_id: crate::text::copy_opt_text(&self.source_id),
            question: self.question.clone(),
            answer: self.answer.clone(),
            explanation: self.explanation.clone(),
            choices: copy_choices(&self.choices),
            created_at: self.created_at,
            schedule: self.schedule,
        }
    }
}

impl Change {
    pub fn copy(&self) -> (r: Change)
        ensures
            r@ == self@,
    {
        Change {
            line: self.line,
            source_lines: self.source_lines.clone(),
            notes: crate::text::copy_texts(&self.notes),
            kind: self.kind.clone(),
            before: match &self.before {
                Some(c) => Some(c.copy()),
                None => None,
            },
            after: self.after.copy(),
        }
    }
}

impl ImportPreview {
    pub fn copy(&self) -> (r: ImportPreview)
        ensures
            r@ == self@,
    {
        let mut changes: Vec<Change> = Vec::new();
        let mut i: usize = 0;
        while i < self.changes.len()
            invariant
                i <= self.changes.len(),
                changes.len() == i,
                forall|j: int| 0 <= j < i ==> changes@[j]@ == self.changes@[j]@,
            decreases self.changes.len() - i,
        {
            changes.push(self.changes[i].copy());
            i = i + 1;
        }
        let mut errors: Vec<CsvIssue> = Vec::new();
        let mut k: usize = 0;
        while k < self.errors.len()
            invariant
                k <= self.errors.len(),
                errors.len() == k,
                forall|j: int| 0 <= j < k ==> errors@[j]@ == self.errors@[j]@,
            decreases self.errors.len() - k,
        {
            errors.push(CsvIssue { line: self.errors[k].line, message: self.errors[k].message.clone() });
            k = k + 1;
        }
        let r = ImportPreview {
            revision: self.revision,
            deck_id: self.deck_id.clone(),
            mapping: self.mapping.copy(),
            changes,
            errors,
            missing: self.missing,
            merged_rows: self.merged_rows,
        };
        assert(r@.changes =~= self@.changes);
        assert(r@.errors =~= self@.errors);
        r
    }
}

} // verus!
