//! Checking a CSV import against a deck: rows with the same matching key merge
//! into one card, each merged card is matched to at most one existing card of
//! the deck, and nothing is written until the preview is applied.
use vstd::prelude::*;
use crate::model::{
    Card, CardV, Change, ChangeV, Choice, ChoiceV, CsvIssue, CsvIssueV, ImportPreview,
    ImportPreviewV, Mapping, MappingV, ParsedCsv, ParsedCsvV, Result, Schedule, SnapshotV,
    invalid, fails_with, choices_view, texts_view, cards_view, deck_pos, unlearned,
    first_where, lemma_first_where_at, lemma_first_where_none, copy_choices,
};
use crate::text::{
    blank, is_blank, trim, lines_of, split_on, join, decimal, lines_trimmed, split_trimmed,
    join_paragraphs, decimal_text, concat, copy_text, copy_opt_text, copy_texts,
};
use crate::library::{Library, append_unique, append_unique_choice, lemma_filter_push};
use crate::ids::{new_id, spec_uuid_text};

verus! {

/// A sequence with `x` appended unless it already holds `x`.
pub open spec fn unique_push<A>(s: Seq<A>, x: A) -> Seq<A> {
    if s.contains(x) {
        s
    } else {
        s.push(x)
    }
}

/// The columns a mapping assigns, in the order question, answer, explanation,
/// ID, choices.
pub open spec fn mapped_columns(m: MappingV) -> Seq<usize> {
    seq![m.question, m.answer] + (match m.explanation {
        Some(c) => seq![c],
        None => seq![],
    }) + (match m.id {
        Some(c) => seq![c],
        None => seq![],
    }) + m.choices
}

/// Every assigned column exists and no column has two roles.
pub open spec fn columns_ok(m: MappingV, width: nat) -> bool {
    &&& forall|i: int| 0 <= i < mapped_columns(m).len() ==> mapped_columns(m)[i] < width
    &&& mapped_columns(m).no_duplicates()
}

/// A choice separator, when choices are assigned, is not empty.
pub open spec fn separator_ok(m: MappingV) -> bool {
    !(m.choices.len() > 0 && m.choice_separator == Some(Seq::<char>::empty()))
}

/// `s` with `x` inserted before its first element greater than `x`.
pub open spec fn insert_ascending(s: Seq<usize>, x: usize) -> Seq<usize> {
    let j = first_where(s, |y: usize| y > x);
    if j < 0 {
        s.push(x)
    } else {
        s.insert(j, x)
    }
}

/// The columns in ascending order (insertion sort).
pub open spec fn ascending(s: Seq<usize>) -> Seq<usize>
    decreases s.len(),
{
    if s.len() == 0 {
        s
    } else {
        insert_ascending(ascending(s.drop_last()), s.last())
    }
}

/// The CSV line number reported for data row `i`.
pub open spec fn row_line(csv: ParsedCsvV, i: int) -> usize {
    if i < csv.row_lines.len() {
        csv.row_lines[i]
    } else {
        (i + 2) as usize
    }
}

/// The choice texts one cell yields: the whole cell; or its trimmed lines; or
/// its trimmed pieces between occurrences of the separator.
pub open spec fn choice_parts(cell: Seq<char>, sep: Option<Seq<char>>) -> Seq<Seq<char>> {
    match sep {
        Some(p) => if p == seq!['\n'] {
            lines_of(cell).map_values(|x: Seq<char>| trim(x))
        } else {
            split_on(cell, p).map_values(|x: Seq<char>| trim(x))
        },
        None => seq![cell],
    }
}

/// Choices after the non-blank texts are added, each once.
pub open spec fn add_parts(choices: Seq<ChoiceV>, parts: Seq<Seq<char>>, label: Seq<char>) -> Seq<ChoiceV>
    decreases parts.len(),
{
    if parts.len() == 0 {
        choices
    } else {
        let c = add_parts(choices, parts.drop_last(), label);
        if blank(parts.last()) {
            c
        } else {
            unique_push(c, ChoiceV { label, text: parts.last() })
        }
    }
}

/// Label of a choice taken from a column: the column's header when cells are
/// taken whole, empty when they are split.
pub open spec fn choice_label(headers: Seq<Seq<char>>, col: usize, sep: Option<Seq<char>>) -> Seq<char> {
    if sep is Some {
        seq![]
    } else {
        headers[col as int]
    }
}

/// Choices after the choice columns of one row are added, in column order.
pub open spec fn add_columns(
    choices: Seq<ChoiceV>,
    row: Seq<Seq<char>>,
    headers: Seq<Seq<char>>,
    cols: Seq<usize>,
    sep: Option<Seq<char>>,
) -> Seq<ChoiceV>
    decreases cols.len(),
{
    if cols.len() == 0 {
        choices
    } else {
        let c = add_columns(choices, row, headers, cols.drop_last(), sep);
        let col = cols.last();
        add_parts(c, choice_parts(row[col as int], sep), choice_label(headers, col, sep))
    }
}

/// The rows that merge into one card.
pub struct GroupV {
    pub key: Seq<char>,
    pub question: Seq<char>,
    pub source_id: Option<Seq<char>>,
    pub answers: Seq<Seq<char>>,
    pub explanations: Seq<Seq<char>>,
    pub choices: Seq<ChoiceV>,
    pub lines: Seq<usize>,
}

pub struct RowsV {
    pub errors: Seq<CsvIssueV>,
    pub groups: Seq<GroupV>,
}

/// Index of the group with the key, or -1.
pub open spec fn group_pos(groups: Seq<GroupV>, key: Seq<char>) -> int {
    first_where(groups, |g: GroupV| g.key == key)
}

/// A group after one more row joins it.
pub open spec fn join_row(
    g: GroupV,
    line: usize,
    answer: Seq<char>,
    explanation: Seq<char>,
    row: Seq<Seq<char>>,
    headers: Seq<Seq<char>>,
    cols: Seq<usize>,
    sep: Option<Seq<char>>,
) -> GroupV {
    GroupV {
        lines: g.lines.push(line),
        answers: unique_push(g.answers, answer),
        explanations: if blank(explanation) {
            g.explanations
        } else {
            unique_push(g.explanations, explanation)
        },
        choices: add_columns(g.choices, row, headers, cols, sep),
        ..g
    }
}

pub open spec fn same_id_message(first_line: usize) -> Seq<char> {
    decimal(first_line as nat)
        + "行目と同じIDですが、問題文が異なります。問題文で照合する場合は「照合用ID」を「使用しない」にしてください。IDで照合する場合は、別の問題に別のIDを指定してください。"@
}

/// The grouping after data row `i` is read.
pub open spec fn row_step(acc: RowsV, csv: ParsedCsvV, m: MappingV, cols: Seq<usize>, i: int) -> RowsV {
    let line = row_line(csv, i);
    let row = csv.rows[i];
    if row.len() != csv.headers.len() {
        RowsV { errors: acc.errors.push(CsvIssueV { line, message: "列数が一致しません。"@ }), ..acc }
    } else {
        let question = row[m.question as int];
        let answer = row[m.answer as int];
        let explanation = match m.explanation {
            Some(c) => row[c as int],
            None => seq![],
        };
        let source_id = match m.id {
            Some(c) => Some(row[c as int]),
            None => None,
        };
        if blank(question) || blank(answer) || (source_id matches Some(s) && blank(s)) {
            RowsV {
                errors: acc.errors.push(
                    CsvIssueV { line, message: "問題・答え・選択したIDは空欄にできません。"@ },
                ),
                ..acc
            }
        } else {
            let key = match source_id {
                Some(s) => s,
                None => question,
            };
            let gi = group_pos(acc.groups, key);
            if gi >= 0 {
                let g = acc.groups[gi];
                if g.question != question {
                    RowsV {
                        errors: acc.errors.push(
                            CsvIssueV { line, message: same_id_message(g.lines[0]) },
                        ),
                        ..acc
                    }
                } else {
                    RowsV {
                        groups: acc.groups.update(
                            gi,
                            join_row(g, line, answer, explanation, row, csv.headers, cols, m.choice_separator),
                        ),
                        ..acc
                    }
                }
            } else {
                let g = GroupV {
                    key,
                    question,
                    source_id,
                    answers: seq![],
                    explanations: seq![],
                    choices: seq![],
                    lines: seq![],
                };
                RowsV {
                    groups: acc.groups.push(
                        join_row(g, line, answer, explanation, row, csv.headers, cols, m.choice_separator),
                    ),
                    ..acc
                }
            }
        }
    }
}

/// The grouping after the first `n` data rows are read.
pub open spec fn group_rows(csv: ParsedCsvV, m: MappingV, cols: Seq<usize>, n: int) -> RowsV
    decreases n,
{
    if n <= 0 {
        RowsV { errors: seq![], groups: seq![] }
    } else {
        row_step(group_rows(csv, m, cols, n - 1), csv, m, cols, n - 1)
    }
}

/// An existing card is the candidate of the group: same source ID when
/// matching by ID, same question text otherwise.
pub open spec fn candidate(c: CardV, key: Seq<char>, by_id: bool) -> bool {
    if by_id {
        c.source_id == Some(key)
    } else {
        c.question == key
    }
}

pub struct MergeV {
    pub changes: Seq<ChangeV>,
    pub errors: Seq<CsvIssueV>,
    pub merged: int,
    pub matched: Seq<Seq<char>>,
}

/// The card an import creates before the group's content is put in.
pub open spec fn blank_card(id: Seq<char>, deck: Seq<char>, now: i64) -> CardV {
    CardV {
        id,
        deck_id: deck,
        source_id: None,
        question: seq![],
        answer: seq![],
        explanation: seq![],
        choices: seq![],
        created_at: now,
        schedule: unlearned(),
    }
}

/// The card after the group's content is put into `base`.
pub open spec fn merged_card(base: CardV, g: GroupV, by_id: bool) -> CardV {
    CardV {
        question: g.question,
        answer: join(g.answers, "\n\n"@),
        explanation: join(g.explanations, "\n\n"@),
        choices: g.choices,
        source_id: if by_id {
            g.source_id
        } else {
            base.source_id
        },
        ..base
    }
}

pub open spec fn merge_note(field: Seq<char>, count: nat) -> Seq<Seq<char>> {
    if count > 1 {
        seq![
            "異なる"@ + field + "を"@ + decimal(count) + "件まとめています。内容を確認してください。"@,
        ]
    } else {
        seq![]
    }
}

/// The notes of a group whose rows carried different answers or explanations.
pub open spec fn merge_notes(g: GroupV) -> Seq<Seq<char>> {
    merge_note("答え"@, g.answers.len()) + merge_note("解説"@, g.explanations.len())
}

/// The outcome after one more group is matched against the deck's cards; a
/// new card takes the next of the `fresh` identifiers.
pub open spec fn merge_step(
    acc: MergeV,
    g: GroupV,
    existing: Seq<CardV>,
    by_id: bool,
    deck: Seq<char>,
    now: i64,
    fresh: Seq<Seq<char>>,
) -> MergeV {
    let line = g.lines[0];
    let matches = existing.filter(|c: CardV| candidate(c, g.key, by_id));
    if matches.len() > 1 {
        MergeV {
            errors: acc.errors.push(
                CsvIssueV {
                    line,
                    message: "既存カードの候補が複数あります。IDを指定するか、重複を解消してください。"@,
                },
            ),
            ..acc
        }
    } else {
        let before: Option<CardV> = if matches.len() == 1 {
            Some(matches[0])
        } else {
            None
        };
        let base = match before {
            Some(c) => c,
            None => blank_card(fresh[acc.changes.len() as int], deck, now),
        };
        let after = merged_card(base, g, by_id);
        let kind = if before is None {
            "new"@
        } else if before == Some(after) {
            "unchanged"@
        } else {
            "update"@
        };
        MergeV {
            changes: acc.changes.push(
                ChangeV { line, source_lines: g.lines, notes: merge_notes(g), kind, before, after },
            ),
            merged: acc.merged + g.lines.len() - 1,
            matched: match before {
                Some(c) => unique_push(acc.matched, c.id),
                None => acc.matched,
            },
            ..acc
        }
    }
}

/// The outcome after the first `n` groups are matched.
pub open spec fn merge_groups(
    groups: Seq<GroupV>,
    existing: Seq<CardV>,
    by_id: bool,
    deck: Seq<char>,
    now: i64,
    fresh: Seq<Seq<char>>,
    n: int,
) -> MergeV
    decreases n,
{
    if n <= 0 {
        MergeV { changes: seq![], errors: seq![], merged: 0, matched: seq![] }
    } else {
        merge_step(
            merge_groups(groups, existing, by_id, deck, now, fresh, n - 1),
            groups[n - 1],
            existing,
            by_id,
            deck,
            now,
            fresh,
        )
    }
}

/// The cards of a deck, in library order.
pub open spec fn deck_cards(s: SnapshotV, deck: Seq<char>) -> Seq<CardV> {
    s.cards.filter(|c: CardV| c.deck_id == deck)
}

/// The preview of importing `csv` into `deck` with mapping `m`, the cards that
/// the import creates taking the identifiers `fresh` in order.
pub open spec fn preview_of(
    s: SnapshotV,
    deck: Seq<char>,
    csv: ParsedCsvV,
    m: MappingV,
    now: i64,
    fresh: Seq<Seq<char>>,
) -> ImportPreviewV {
    let cols = ascending(m.choices);
    let existing = deck_cards(s, deck);
    let rows = group_rows(csv, m, cols, csv.rows.len() as int);
    let merged = merge_groups(rows.groups, existing, m.id is Some, deck, now, fresh, rows.groups.len() as int);
    ImportPreviewV {
        revision: s.revision,
        deck_id: deck,
        mapping: m,
        changes: merged.changes,
        errors: rows.errors + merged.errors,
        missing: (existing.len() - merged.matched.len()) as usize,
        merged_rows: merged.merged as usize,
    }
}

/// The identifiers of the cards a preview writes, in order.
pub open spec fn written_ids(p: ImportPreviewV) -> Seq<Seq<char>> {
    p.changes.map_values(|c: ChangeV| c.after.id)
}

} // verus!

verus! {

/// Rows that merge into one card, while a CSV is read.
pub struct ImportGroup {
    pub key: String,
    pub question: String,
    pub source_id: Option<String>,
    pub answers: Vec<String>,
    pub explanations: Vec<String>,
    pub choices: Vec<Choice>,
    pub lines: Vec<usize>,
}

impl View for ImportGroup {
    type V = GroupV;

    open spec fn view(&self) -> GroupV {
        GroupV {
            key: self.key@,
            question: self.question@,
            source_id: crate::model::opt_text(self.source_id),
            answers: texts_view(self.answers@),
            explanations: texts_view(self.explanations@),
            choices: choices_view(self.choices@),
            lines: self.lines@,
        }
    }
}

pub open spec fn groups_view(v: Seq<ImportGroup>) -> Seq<GroupV> {
    v.map_values(|g: ImportGroup| g@)
}

pub open spec fn issues_view(v: Seq<CsvIssue>) -> Seq<CsvIssueV> {
    v.map_values(|e: CsvIssue| e@)
}

/// Number of rows held by the groups.
pub open spec fn total_lines(gs: Seq<GroupV>) -> int
    decreases gs.len(),
{
    if gs.len() == 0 {
        0
    } else {
        total_lines(gs.drop_last()) + gs.last().lines.len()
    }
}

pub proof fn lemma_total_lines_update(gs: Seq<GroupV>, j: int, g: GroupV)
    requires
        0 <= j < gs.len(),
    ensures
        total_lines(gs.update(j, g)) == total_lines(gs) - gs[j].lines.len() + g.lines.len(),
    decreases gs.len(),
{
    let u = gs.update(j, g);
    if j == gs.len() - 1 {
        assert(u.drop_last() =~= gs.drop_last());
    } else {
        assert(u.drop_last() =~= gs.drop_last().update(j, g));
        lemma_total_lines_update(gs.drop_last(), j, g);
    }
}

pub proof fn lemma_total_lines_push(gs: Seq<GroupV>, g: GroupV)
    ensures
        total_lines(gs.push(g)) == total_lines(gs) + g.lines.len(),
{
    assert(gs.push(g).drop_last() =~= gs);
}

pub proof fn lemma_total_lines_prefix(gs: Seq<GroupV>, k: int)
    requires
        0 <= k <= gs.len(),
    ensures
        0 <= total_lines(gs.take(k)) <= total_lines(gs),
    decreases gs.len(),
{
    if gs.len() > 0 {
        if k == gs.len() {
            assert(gs.take(k) =~= gs);
            lemma_total_lines_prefix(gs.drop_last(), k - 1);
            assert(gs.drop_last().take(k - 1) =~= gs.drop_last());
        } else {
            assert(gs.take(k) =~= gs.drop_last().take(k));
            lemma_total_lines_prefix(gs.drop_last(), k);
        }
    }
}

pub proof fn lemma_ascending(s: Seq<usize>)
    ensures
        ascending(s).len() == s.len(),
        forall|i: int| 0 <= i < ascending(s).len() ==> s.contains(#[trigger] ascending(s)[i]),
    decreases s.len(),
{
    if s.len() > 0 {
        lemma_ascending(s.drop_last());
        let a = ascending(s.drop_last());
        let x = s.last();
        let j = first_where(a, |y: usize| y > x);
        assert forall|i: int| 0 <= i < ascending(s).len() implies s.contains(
            #[trigger] ascending(s)[i],
        ) by {
            let v = ascending(s)[i];
            if v != x {
                if j < 0 {
                    assert(v == a[i]);
                } else if i < j {
                    assert(v == a[i]);
                } else {
                    assert(v == a[i - 1]);
                }
                assert(s.drop_last().contains(v));
                let t = choose|t: int| 0 <= t < s.drop_last().len() && s.drop_last()[t] == v;
                assert(s[t] == v);
            } else {
                assert(s[s.len() - 1] == v);
            }
        }
    }
}

/// Whether the mapping's columns all exist and have one role each.
pub fn check_columns(m: &Mapping, width: usize) -> (ok: bool)
    ensures
        ok == columns_ok(m@, width as nat),
{
    let mut cols: Vec<usize> = Vec::new();
    cols.push(m.question);
    cols.push(m.answer);
    if let Some(c) = m.explanation {
        cols.push(c);
    }
    if let Some(c) = m.id {
        cols.push(c);
    }
    let mut k: usize = 0;
    let ghost base = cols@;
    while k < m.choices.len()
        invariant
            k <= m.choices.len(),
            cols@ == base + m.choices@.take(k as int),
        decreases m.choices.len() - k,
    {
        cols.push(m.choices[k]);
        k = k + 1;
        assert(cols@ =~= base + m.choices@.take(k as int));
    }
    assert(cols@ =~= mapped_columns(m@));
    let mut i: usize = 0;
    while i < cols.len()
        invariant
            i <= cols.len(),
            cols@ == mapped_columns(m@),
            forall|a: int| 0 <= a < i ==> cols@[a] < width,
            forall|a: int, b: int| 0 <= a < i && 0 <= b < cols.len() && a != b ==> cols@[a] != cols@[b],
        decreases cols.len() - i,
    {
        if cols[i] >= width {
            return false;
        }
        let mut j: usize = 0;
        while j < cols.len()
            invariant
                i < cols.len(),
                j <= cols.len(),
                cols@ == mapped_columns(m@),
                forall|b: int| 0 <= b < j && b != i ==> cols@[i as int] != cols@[b],
            decreases cols.len() - j,
        {
            if j != i && cols[j] == cols[i] {
                assert(cols@[j as int] == cols@[i as int]);
                return false;
            }
            j = j + 1;
        }
        i = i + 1;
    }
    true
}

/// The columns in ascending order.
pub fn ascending_columns(v: &Vec<usize>) -> (r: Vec<usize>)
    ensures
        r@ == ascending(v@),
{
    let mut r: Vec<usize> = Vec::new();
    let mut k: usize = 0;
    while k < v.len()
        invariant
            k <= v.len(),
            r@ == ascending(v@.take(k as int)),
        decreases v.len() - k,
    {
        let x = v[k];
        assert(v@.take(k + 1).drop_last() =~= v@.take(k as int));
        let mut j: usize = 0;
        while j < r.len() && r[j] <= x
            invariant
                j <= r.len(),
                forall|t: int| 0 <= t < j ==> r@[t] <= x,
            decreases r.len() - j,
        {
            j = j + 1;
        }
        let ghost before = r@;
        if j < r.len() {
            proof {
                lemma_first_where_at(before, |y: usize| y > x, j as int);
            }
            r.insert(j, x);
        } else {
            proof {
                lemma_first_where_none(before, |y: usize| y > x);
            }
            r.push(x);
        }
        k = k + 1;
    }
    assert(v@.take(v.len() as int) =~= v@);
    r
}

/// The choice texts of one cell.
pub fn choice_texts(cell: &String, sep: &Option<String>) -> (r: Vec<String>)
    requires
        sep matches Some(p) ==> p@.len() > 0,
    ensures
        texts_view(r@) == choice_parts(cell@, crate::model::opt_text(*sep)),
{
    match sep {
        Some(p) => {
            proof {
                reveal_strlit("\n");
                assert("\n"@ =~= seq!['\n']);
            }
            if crate::text::text_eq(p.as_str(), "\n") {
                assert(p@ == seq!['\n']);
                lines_trimmed(cell.as_str())
            } else {
                split_trimmed(cell.as_str(), p.as_str())
            }
        },
        None => {
            let mut r: Vec<String> = Vec::new();
            r.push(cell.clone());
            assert(texts_view(r@) =~= seq![cell@]);
            r
        },
    }
}

/// Adds the non-blank texts as choices with the label, each once.
pub fn add_texts(choices: &mut Vec<Choice>, parts: &Vec<String>, label: &String)
    ensures
        choices_view(final(choices)@) == add_parts(
            choices_view(old(choices)@),
            texts_view(parts@),
            label@,
        ),
{
    let ghost start = choices_view(choices@);
    let mut i: usize = 0;
    while i < parts.len()
        invariant
            i <= parts.len(),
            choices_view(choices@) == add_parts(start, texts_view(parts@).take(i as int), label@),
        decreases parts.len() - i,
    {
        assert(texts_view(parts@).take(i + 1).drop_last() =~= texts_view(parts@).take(i as int));
        assert(texts_view(parts@).take(i + 1).last() == parts@[i as int]@);
        if !is_blank(parts[i].as_str()) {
            append_unique_choice(choices, Choice { label: label.clone(), text: parts[i].clone() });
        }
        i = i + 1;
    }
    assert(texts_view(parts@).take(parts.len() as int) =~= texts_view(parts@));
}

/// Adds the choices of the row's choice columns, in column order.
pub fn add_row_choices(
    choices: &mut Vec<Choice>,
    row: &Vec<String>,
    headers: &Vec<String>,
    cols: &Vec<usize>,
    sep: &Option<String>,
)
    requires
        row.len() == headers.len(),
        forall|k: int| 0 <= k < cols.len() ==> cols@[k] < headers.len(),
        cols.len() > 0 ==> (sep matches Some(p) ==> p@.len() > 0),
    ensures
        choices_view(final(choices)@) == add_columns(
            choices_view(old(choices)@),
            texts_view(row@),
            texts_view(headers@),
            cols@,
            crate::model::opt_text(*sep),
        ),
{
    let ghost start = choices_view(choices@);
    let mut k: usize = 0;
    while k < cols.len()
        invariant
            k <= cols.len(),
            row.len() == headers.len(),
            forall|t: int| 0 <= t < cols.len() ==> cols@[t] < headers.len(),
            cols.len() > 0 ==> (sep matches Some(p) ==> p@.len() > 0),
            choices_view(choices@) == add_columns(
                start,
                texts_view(row@),
                texts_view(headers@),
                cols@.take(k as int),
                crate::model::opt_text(*sep),
            ),
        decreases cols.len() - k,
    {
        let col = cols[k];
        assert(cols@.take(k + 1).drop_last() =~= cols@.take(k as int));
        assert(cols@.take(k + 1).last() == col);
        let parts = choice_texts(&row[col], sep);
        let label = if sep.is_some() {
            String::new()
        } else {
            headers[col].clone()
        };
        assert(label@ == choice_label(texts_view(headers@), col, crate::model::opt_text(*sep)));
        add_texts(choices, &parts, &label);
        k = k + 1;
    }
    assert(cols@.take(cols.len() as int) =~= cols@);
}

/// Adds one row to a group.
pub fn join_row_exec(
    g: &mut ImportGroup,
    line: usize,
    answer: String,
    explanation: String,
    row: &Vec<String>,
    headers: &Vec<String>,
    cols: &Vec<usize>,
    sep: &Option<String>,
)
    requires
        row.len() == headers.len(),
        forall|k: int| 0 <= k < cols.len() ==> cols@[k] < headers.len(),
        cols.len() > 0 ==> (sep matches Some(p) ==> p@.len() > 0),
    ensures
        final(g)@ == join_row(
            old(g)@,
            line,
            answer@,
            explanation@,
            texts_view(row@),
            texts_view(headers@),
            cols@,
            crate::model::opt_text(*sep),
        ),
{
    g.lines.push(line);
    append_unique(&mut g.answers, answer);
    if !is_blank(explanation.as_str()) {
        append_unique(&mut g.explanations, explanation);
    }
    add_row_choices(&mut g.choices, row, headers, cols, sep);
}

} // verus!

verus! {

/// Index of the group with the key, if any.
fn find_group(groups: &Vec<ImportGroup>, key: &String) -> (r: Option<usize>)
    ensures
        (r matches Some(i) ==> i as int == group_pos(groups_view(groups@), key@) && i < groups.len()),
        r is None ==> group_pos(groups_view(groups@), key@) == -1,
{
    let mut i: usize = 0;
    while i < groups.len()
        invariant
            i <= groups.len(),
            forall|k: int| 0 <= k < i ==> groups_view(groups@)[k].key != key@,
        decreases groups.len() - i,
    {
        if groups[i].key == *key {
            proof {
                lemma_first_where_at(groups_view(groups@), |g: GroupV| g.key == key@, i as int);
            }
            return Some(i);
        }
        i = i + 1;
    }
    proof {
        lemma_first_where_none(groups_view(groups@), |g: GroupV| g.key == key@);
    }
    None
}

/// Reads the data rows into issues and groups of rows that share a key.
pub fn read_rows(csv: &ParsedCsv, m: &Mapping, cols: &Vec<usize>) -> (r: (
    Vec<CsvIssue>,
    Vec<ImportGroup>,
))
    requires
        columns_ok(m@, csv.headers.len() as nat),
        forall|k: int| 0 <= k < cols.len() ==> cols@[k] < csv.headers.len(),
        cols.len() > 0 ==> (m@.choice_separator matches Some(p) ==> p.len() > 0),
        csv.rows.len() <= usize::MAX - 2,
    ensures
        issues_view(r.0@) == group_rows(csv@, m@, cols@, csv.rows.len() as int).errors,
        groups_view(r.1@) == group_rows(csv@, m@, cols@, csv.rows.len() as int).groups,
        total_lines(groups_view(r.1@)) <= csv.rows.len(),
        forall|k: int| 0 <= k < r.1.len() ==> #[trigger] r.1@[k].lines.len() >= 1,
{
    let mut errors: Vec<CsvIssue> = Vec::new();
    let mut groups: Vec<ImportGroup> = Vec::new();
    let ghost cv = csv@;
    let ghost mv = m@;
    let mut i: usize = 0;
    proof {
        assert(issues_view(errors@) =~= seq![]);
        assert(groups_view(groups@) =~= seq![]);
    }
    while i < csv.rows.len()
        invariant
            i <= csv.rows.len(),
            cv == csv@,
            mv == m@,
            columns_ok(m@, csv.headers.len() as nat),
            forall|k: int| 0 <= k < cols.len() ==> cols@[k] < csv.headers.len(),
            cols.len() > 0 ==> (m@.choice_separator matches Some(p) ==> p.len() > 0),
            csv.rows.len() <= usize::MAX - 2,
            issues_view(errors@) == group_rows(cv, mv, cols@, i as int).errors,
            groups_view(groups@) == group_rows(cv, mv, cols@, i as int).groups,
            total_lines(groups_view(groups@)) <= i,
            forall|k: int| 0 <= k < groups.len() ==> #[trigger] groups@[k].lines.len() >= 1,
        decreases csv.rows.len() - i,
    {
        let line = if i < csv.row_lines.len() {
            csv.row_lines[i]
        } else {
            i + 2
        };
        assert(line == row_line(cv, i as int));
        let row = &csv.rows[i];
        assert(texts_view(row@) == cv.rows[i as int]);
        assert(mapped_columns(mv)[0] == mv.question);
        assert(mapped_columns(mv)[1] == mv.answer);
        let ghost acc = group_rows(cv, mv, cols@, i as int);
        if row.len() != csv.headers.len() {
            errors.push(CsvIssue { line, message: "列数が一致しません。".to_owned() });
            assert(issues_view(errors@) =~= acc.errors.push(
                CsvIssueV { line, message: "列数が一致しません。"@ },
            ));
        } else {
            let question = row[m.question].clone();
            let answer = row[m.answer].clone();
            let explanation = match m.explanation {
                Some(c) => {
                    assert(mapped_columns(mv)[2] == c);
                    row[c].clone()
                },
                None => String::new(),
            };
            let source_id = match m.id {
                Some(c) => {
                    proof {
                        if mv.explanation is Some {
                            assert(mapped_columns(mv)[3] == c);
                        } else {
                            assert(mapped_columns(mv)[2] == c);
                        }
                    }
                    Some(row[c].clone())
                },
                None => None,
            };
            let id_blank = match &source_id {
                Some(s) => is_blank(s.as_str()),
                None => false,
            };
            if is_blank(question.as_str()) || is_blank(answer.as_str()) || id_blank {
                errors.push(
                    CsvIssue {
                        line,
                        message: "問題・答え・選択したIDは空欄にできません。".to_owned(),
                    },
                );
                assert(issues_view(errors@) =~= acc.errors.push(
                    CsvIssueV { line, message: "問題・答え・選択したIDは空欄にできません。"@ },
                ));
            } else {
                let key = match &source_id {
                    Some(s) => s.clone(),
                    None => question.clone(),
                };
                match find_group(&groups, &key) {
                    Some(gi) => {
                        if groups[gi].question != question {
                            assert(groups@[gi as int].lines.len() >= 1);
                            let first = groups[gi].lines[0];
                            let message = concat(
                                decimal_text(first).as_str(),
                                "行目と同じIDですが、問題文が異なります。問題文で照合する場合は「照合用ID」を「使用しない」にしてください。IDで照合する場合は、別の問題に別のIDを指定してください。",
                            );
                            errors.push(CsvIssue { line, message });
                            assert(issues_view(errors@) =~= acc.errors.push(
                                CsvIssueV { line, message: same_id_message(first) },
                            ));
                        } else {
                            let ghost gs0 = groups_view(groups@);
                            let mut g = groups.remove(gi);
                            join_row_exec(
                                &mut g,
                                line,
                                answer,
                                explanation,
                                row,
                                &csv.headers,
                                cols,
                                &m.choice_separator,
                            );
                            let ghost gv = g@;
                            groups.insert(gi, g);
                            assert(groups_view(groups@) =~= gs0.update(gi as int, gv));
                            proof {
                                lemma_total_lines_update(gs0, gi as int, gv);
                            }
                        }
                    },
                    None => {
                        let ghost gs0 = groups_view(groups@);
                        let mut g = ImportGroup {
                            key,
                            question,
                            source_id,
                            answers: Vec::new(),
                            explanations: Vec::new(),
                            choices: Vec::new(),
                            lines: Vec::new(),
                        };
                        assert(texts_view(g.answers@) =~= seq![]);
                        assert(texts_view(g.explanations@) =~= seq![]);
                        assert(choices_view(g.choices@) =~= seq![]);
                        assert(g.lines@ =~= seq![]);
                        join_row_exec(
                            &mut g,
                            line,
                            answer,
                            explanation,
                            row,
                            &csv.headers,
                            cols,
                            &m.choice_separator,
                        );
                        let ghost gv = g@;
                        groups.push(g);
                        assert(groups_view(groups@) =~= gs0.push(gv));
                        proof {
                            lemma_total_lines_push(gs0, gv);
                        }
                    },
                }
            }
        }
        i = i + 1;
    }
    (errors, groups)
}

} // verus!

verus! {

pub proof fn lemma_merge_fresh(
    groups: Seq<GroupV>,
    existing: Seq<CardV>,
    by_id: bool,
    deck: Seq<char>,
    now: i64,
    f1: Seq<Seq<char>>,
    f2: Seq<Seq<char>>,
    n: int,
)
    requires
        forall|i: int|
            0 <= i < merge_groups(groups, existing, by_id, deck, now, f1, n).changes.len() ==> f1[i]
                == f2[i],
    ensures
        merge_groups(groups, existing, by_id, deck, now, f1, n) == merge_groups(
            groups,
            existing,
            by_id,
            deck,
            now,
            f2,
            n,
        ),
    decreases n,
{
    if n > 0 {
        let a1 = merge_groups(groups, existing, by_id, deck, now, f1, n - 1);
        assert(a1.changes.len() <= merge_groups(groups, existing, by_id, deck, now, f1, n).changes.len());
        lemma_merge_fresh(groups, existing, by_id, deck, now, f1, f2, n - 1);
        let g = groups[n - 1];
        let matches = existing.filter(|c: CardV| candidate(c, g.key, by_id));
        if matches.len() <= 1 && matches.len() != 1 {
            assert(f1[a1.changes.len() as int] == f2[a1.changes.len() as int]);
        }
    }
}

/// Positions in `self.state.cards` of the deck's cards, in order.
pub(crate) fn deck_card_indices(lib: &Library, deck: &str) -> (r: Vec<usize>)
    ensures
        r.len() == deck_cards(lib@, deck@).len(),
        forall|k: int| 0 <= k < r.len() ==> r@[k] < lib.state.cards.len() && lib@.cards[#[trigger] r@[k] as int]
            == deck_cards(lib@, deck@)[k],
{
    let mut r: Vec<usize> = Vec::new();
    let mut i: usize = 0;
    let ghost cs = lib@.cards;
    let ghost p = |c: CardV| c.deck_id == deck@;
    while i < lib.state.cards.len()
        invariant
            i <= lib.state.cards.len(),
            cs == lib@.cards,
            p == (|c: CardV| c.deck_id == deck@),
            r.len() == cs.take(i as int).filter(p).len(),
            forall|k: int| 0 <= k < r.len() ==> r@[k] < i && cs[#[trigger] r@[k] as int] == cs.take(i as int).filter(p)[k],
        decreases lib.state.cards.len() - i,
    {
        assert(cs.take(i + 1) =~= cs.take(i as int).push(cs[i as int]));
        proof {
            lemma_filter_push(cs.take(i as int), cs[i as int], p);
        }
        if crate::text::text_eq(lib.state.cards[i].deck_id.as_str(), deck) {
            r.push(i);
        }
        i = i + 1;
    }
    assert(cs.take(lib.state.cards.len() as int) =~= cs);
    r
}

/// Number of the deck's cards that are candidates for the key, and the position
/// in `self.state.cards` of the first one.
fn count_candidates(lib: &Library, ex: &Vec<usize>, key: &String, by_id: bool, ghost_deck: Ghost<Seq<char>>) -> (r: (usize, usize))
    requires
        ex.len() == deck_cards(lib@, ghost_deck@).len(),
        forall|k: int| 0 <= k < ex.len() ==> ex@[k] < lib.state.cards.len() && lib@.cards[#[trigger] ex@[k] as int]
            == deck_cards(lib@, ghost_deck@)[k],
    ensures
        r.0 == deck_cards(lib@, ghost_deck@).filter(|c: CardV| candidate(c, key@, by_id)).len(),
        r.0 >= 1 ==> r.1 < lib.state.cards.len() && lib@.cards[r.1 as int] == deck_cards(
            lib@,
            ghost_deck@,
        ).filter(|c: CardV| candidate(c, key@, by_id))[0],
{
    let ghost es = deck_cards(lib@, ghost_deck@);
    let ghost p = |c: CardV| candidate(c, key@, by_id);
    let mut count: usize = 0;
    let mut first: usize = 0;
    let mut j: usize = 0;
    while j < ex.len()
        invariant
            j <= ex.len(),
            es == deck_cards(lib@, ghost_deck@),
            p == (|c: CardV| candidate(c, key@, by_id)),
            ex.len() == es.len(),
            forall|k: int| 0 <= k < ex.len() ==> ex@[k] < lib.state.cards.len() && lib@.cards[#[trigger] ex@[k] as int] == es[k],
            count == es.take(j as int).filter(p).len(),
            count <= j,
            count >= 1 ==> first < lib.state.cards.len() && lib@.cards[first as int] == es.take(j as int).filter(p)[0],
        decreases ex.len() - j,
    {
        let ci = ex[j];
        assert(lib@.cards[ci as int] == es[j as int]);
        assert(es.take(j + 1) =~= es.take(j as int).push(es[j as int]));
        proof {
            lemma_filter_push(es.take(j as int), es[j as int], p);
        }
        let card = &lib.state.cards[ci];
        let hit = if by_id {
            match &card.source_id {
                Some(s) => *s == *key,
                None => false,
            }
        } else {
            card.question == *key
        };
        if hit {
            if count == 0 {
                first = ci;
            }
            count = count + 1;
        }
        j = j + 1;
    }
    assert(es.take(ex.len() as int) =~= es);
    (count, first)
}

/// Whether two cards are equal in every field.
pub fn card_eq(a: &Card, b: &Card) -> (r: bool)
    ensures
        r == (a@ == b@),
{
    if a.id != b.id || a.deck_id != b.deck_id || a.question != b.question || a.answer != b.answer
        || a.explanation != b.explanation || a.created_at != b.created_at || a.schedule != b.schedule
    {
        return false;
    }
    let sid = match (&a.source_id, &b.source_id) {
        (Some(x), Some(y)) => *x == *y,
        (None, None) => true,
        _ => false,
    };
    if !sid {
        return false;
    }
    if a.choices.len() != b.choices.len() {
        assert(a@.choices.len() != b@.choices.len());
        return false;
    }
    let mut i: usize = 0;
    while i < a.choices.len()
        invariant
            i <= a.choices.len(),
            a.choices.len() == b.choices.len(),
            forall|k: int| 0 <= k < i ==> a.choices@[k]@ == b.choices@[k]@,
        decreases a.choices.len() - i,
    {
        if a.choices[i].label != b.choices[i].label || a.choices[i].text != b.choices[i].text {
            assert(a@.choices[i as int] != b@.choices[i as int]);
            return false;
        }
        i = i + 1;
    }
    assert(a@.choices =~= b@.choices);
    true
}

fn merge_note_exec(notes: &mut Vec<String>, field: &str, count: usize)
    ensures
        texts_view(final(notes)@) == texts_view(old(notes)@) + merge_note(field@, count as nat),
{
    if count > 1 {
        let t = concat(
            concat(concat(concat("異なる", field).as_str(), "を").as_str(), decimal_text(count).as_str()).as_str(),
            "件まとめています。内容を確認してください。",
        );
        notes.push(t);
        assert(texts_view(notes@) =~= texts_view(old(notes)@) + merge_note(field@, count as nat));
    } else {
        assert(texts_view(notes@) =~= texts_view(old(notes)@) + merge_note(field@, count as nat));
    }
}

} // verus!

verus! {

pub proof fn lemma_filter_subset<A>(s: Seq<A>, p: spec_fn(A) -> bool, i: int)
    requires
        0 <= i < s.filter(p).len(),
    ensures
        s.contains(s.filter(p)[i]),
    decreases s.len(),
{
    reveal(Seq::filter);
    if s.len() > 0 {
        let sub = s.drop_last().filter(p);
        if i < sub.len() {
            lemma_filter_subset(s.drop_last(), p, i);
            let j = choose|j: int| 0 <= j < s.drop_last().len() && s.drop_last()[j] == sub[i];
            assert(s[j] == s.filter(p)[i]);
        } else {
            assert(s[s.len() - 1] == s.filter(p)[i]);
        }
    }
}

pub proof fn lemma_matched_bound(matched: Seq<Seq<char>>, ids: Seq<Seq<char>>)
    requires
        matched.no_duplicates(),
        forall|i: int| 0 <= i < matched.len() ==> ids.contains(#[trigger] matched[i]),
    ensures
        matched.len() <= ids.len(),
{
    broadcast use vstd::seq_lib::seq_to_set_is_finite;
    matched.unique_seq_to_set();
    ids.lemma_cardinality_of_set();
    assert(matched.to_set().subset_of(ids.to_set())) by {
        assert forall|x: Seq<char>| matched.to_set().contains(x) implies ids.to_set().contains(x) by {
            let i = choose|i: int| 0 <= i < matched.len() && matched[i] == x;
            assert(ids.contains(matched[i]));
        }
    }
    vstd::set_lib::lemma_len_subset(matched.to_set(), ids.to_set());
}

pub open spec fn changes_view(v: Seq<Change>) -> Seq<ChangeV> {
    v.map_values(|c: Change| c@)
}

pub open spec fn ids_of(cs: Seq<ChangeV>) -> Seq<Seq<char>> {
    cs.map_values(|c: ChangeV| c.after.id)
}

impl Library {
    /// Checks an import of `csv` into the deck under the column assignment
    /// and describes it, without changing the library. Rows whose key (the
    /// chosen ID column, else the question) repeats merge into one card; each
    /// merged card is matched to the deck's card with the same key, keeping its
    /// identity and review state, or becomes a new card.
    #[verifier::spinoff_prover]
    pub fn preview_import(&self, deck: &str, csv: &ParsedCsv, mapping: Mapping, now: i64) -> (r: Result<
        ImportPreview,
    >)
        requires
            csv.rows.len() <= usize::MAX - 2,
        ensures
            deck_pos(self@.decks, deck@) < 0 ==> fails_with(r, "単語帳が見つかりません。"@),
            deck_pos(self@.decks, deck@) >= 0 && !columns_ok(mapping@, csv.headers.len() as nat)
                ==> fails_with(
                r,
                "列の割り当てを確認してください。同じ列は複数の役割に使えません。"@,
            ),
            deck_pos(self@.decks, deck@) >= 0 && columns_ok(mapping@, csv.headers.len() as nat)
                && !separator_ok(mapping@) ==> fails_with(
                r,
                "選択肢の区切り文字を入力してください。"@,
            ),
            deck_pos(self@.decks, deck@) >= 0 && columns_ok(mapping@, csv.headers.len() as nat)
                && separator_ok(mapping@) ==> (r matches Ok(p) && p@ == preview_of(
                self@,
                deck@,
                csv@,
                mapping@,
                now,
                written_ids(p@),
            )),
            (r matches Ok(p) ==> forall|k: int|
                0 <= k < p@.changes.len() && (#[trigger] p@.changes[k]).before is None ==> spec_uuid_text(
                    p@.changes[k].after.id,
                )),
    {
        if self.find_deck(deck).is_none() {
            return Err(invalid("単語帳が見つかりません。"));
        }
        if !check_columns(&mapping, csv.headers.len()) {
            return Err(
                invalid("列の割り当てを確認してください。同じ列は複数の役割に使えません。"),
            );
        }
        let empty_sep = match &mapping.choice_separator {
            Some(s) => s.unicode_len() == 0,
            None => false,
        };
        if mapping.choices.len() > 0 && empty_sep {
            proof {
                let sep = mapping@.choice_separator->0;
                assert(sep =~= Seq::<char>::empty());
            }
            return Err(invalid("選択肢の区切り文字を入力してください。"));
        }
        proof {
            if mapping@.choice_separator is Some {
                let sep = mapping@.choice_separator->0;
                if sep =~= Seq::<char>::empty() {
                    assert(empty_sep);
                }
            }
        }
        let ghost mv = mapping@;
        let ghost width = csv.headers.len();
        let cols = ascending_columns(&mapping.choices);
        proof {
            lemma_ascending(mv.choices);
            let off = mapped_columns(mv).len() - mv.choices.len();
            assert forall|k: int| 0 <= k < cols.len() implies cols@[k] < width by {
                let t = choose|t: int| 0 <= t < mv.choices.len() && mv.choices[t] == cols@[k];
                assert(mapped_columns(mv)[off + t] == mv.choices[t]);
            }
        }
        let ex = deck_card_indices(self, deck);
        let ghost es = deck_cards(self@, deck@);
        let (row_errors, groups) = read_rows(csv, &mapping, &cols);
        let ghost rows = group_rows(csv@, mv, cols@, csv.rows.len() as int);
        let ghost all = groups@;
        let ghost gs = groups_view(all);
        let by_id = mapping.id.is_some();
        let mut rest = groups;
        let mut errors = row_errors;
        let mut changes: Vec<Change> = Vec::new();
        let mut matched: Vec<String> = Vec::new();
        let mut merged: usize = 0;
        let mut k: usize = 0;
        assert(all.len() == rest.len());
        proof {
            assert(changes_view(changes@) =~= seq![]);
            assert(texts_view(matched@) =~= seq![]);
            assert(issues_view(errors@) =~= rows.errors + seq![]);
            assert(gs.take(0) =~= seq![]);
        }
        while rest.len() > 0
            invariant
                k + rest.len() == all.len(),
                all.len() <= usize::MAX,
                rest@ == all.skip(k as int),
                gs == groups_view(all),
                forall|t: int| 0 <= t < all.len() ==> #[trigger] all[t].lines.len() >= 1,
                total_lines(gs) <= csv.rows.len(),
                csv.rows.len() <= usize::MAX - 2,
                ex.len() == es.len(),
                es == deck_cards(self@, deck@),
                forall|t: int| 0 <= t < ex.len() ==> ex@[t] < self.state.cards.len() && self@.cards[#[trigger] ex@[t] as int] == es[t],
                by_id == (mv.id is Some),
                changes_view(changes@) == merge_groups(gs, es, by_id, deck@, now, ids_of(changes_view(changes@)), k as int).changes,
                issues_view(errors@) == rows.errors + merge_groups(gs, es, by_id, deck@, now, ids_of(changes_view(changes@)), k as int).errors,
                merged == merge_groups(gs, es, by_id, deck@, now, ids_of(changes_view(changes@)), k as int).merged,
                texts_view(matched@) == merge_groups(gs, es, by_id, deck@, now, ids_of(changes_view(changes@)), k as int).matched,
                merged <= total_lines(gs.take(k as int)),
                texts_view(matched@).no_duplicates(),
                forall|t: int| 0 <= t < matched.len() ==> es.map_values(|c: CardV| c.id).contains(#[trigger] texts_view(matched@)[t]),
                forall|t: int|
                    0 <= t < changes.len() && (#[trigger] changes@[t])@.before is None ==> spec_uuid_text(
                        changes@[t]@.after.id,
                    ),
            decreases rest.len(),
        {
            let ghost fresh0 = ids_of(changes_view(changes@));
            let ghost acc = merge_groups(gs, es, by_id, deck@, now, fresh0, k as int);
            let g = rest.remove(0);
            assert(g@ == gs[k as int]);
            assert(g.lines.len() >= 1);
            let line = g.lines[0];
            let (count, first) = count_candidates(self, &ex, &g.key, by_id, Ghost(deck@));
            let ghost matches = es.filter(|c: CardV| candidate(c, g@.key, by_id));
            assert(matches == es.filter(|c: CardV| candidate(c, gs[k as int].key, by_id)));
            assert(matches.len() == count);
            assert(merge_groups(gs, es, by_id, deck@, now, fresh0, k + 1) == merge_step(acc, gs[k as int], es, by_id, deck@, now, fresh0));
            proof {
                lemma_total_lines_prefix(gs, k + 1);
                assert(gs.take(k + 1).drop_last() =~= gs.take(k as int));
            }
            if count > 1 {
                errors.push(
                    CsvIssue {
                        line,
                        message: "既存カードの候補が複数あります。IDを指定するか、重複を解消してください。".to_owned(),
                    },
                );
                assert(issues_view(errors@) =~= (rows.errors + acc.errors).push(CsvIssueV {
                    line,
                    message: "既存カードの候補が複数あります。IDを指定するか、重複を解消してください。"@,
                }));
                assert(issues_view(errors@) =~= rows.errors + merge_groups(gs, es, by_id, deck@, now, fresh0, k + 1).errors);
            } else {
                let before: Option<Card> = if count == 1 {
                    Some(self.state.cards[first].copy())
                } else {
                    None
                };
                let mut after = match &before {
                    Some(c) => c.copy(),
                    None => Card {
                        id: new_id(),
                        deck_id: deck.to_owned(),
                        source_id: None,
                        question: String::new(),
                        answer: String::new(),
                        explanation: String::new(),
                        choices: Vec::new(),
                        created_at: now,
                        schedule: Schedule::unlearned(),
                    },
                };
                let ghost fresh1 = fresh0.push(after.id@);
                proof {
                    if count != 1 {
                        assert(choices_view(after.choices@) =~= seq![]);
                        assert(after@ == blank_card(fresh1[acc.changes.len() as int], deck@, now));
                    }
                }
                let ImportGroup { key, question, source_id, answers, explanations, choices, lines } = g;
                let n_answers = answers.len();
                let n_explanations = explanations.len();
                let n_lines = lines.len();
                after.question = question;
                after.answer = join_paragraphs(&answers);
                after.explanation = join_paragraphs(&explanations);
                after.choices = choices;
                if by_id {
                    after.source_id = source_id;
                }
                let kind = match &before {
                    None => "new".to_owned(),
                    Some(b) => if card_eq(b, &after) {
                        "unchanged".to_owned()
                    } else {
                        "update".to_owned()
                    },
                };
                let mut notes: Vec<String> = Vec::new();
                assert(texts_view(notes@) =~= seq![]);
                merge_note_exec(&mut notes, "答え", n_answers);
                merge_note_exec(&mut notes, "解説", n_explanations);
                merged = merged + (n_lines - 1);
                match &before {
                    Some(b) => {
                        let ghost ids = es.map_values(|c: CardV| c.id);
                        let ghost prev = texts_view(matched@);
                        proof {
                            lemma_filter_subset(es, |c: CardV| candidate(c, g@.key, by_id), 0);
                            assert(es.contains(matches[0]));
                        }
                        let ghost j = choose|j: int| 0 <= j < es.len() && es[j] == matches[0];
                        assert(ids[j] == b@.id);
                        assert(ids.contains(b@.id));
                        assert(forall|t: int| 0 <= t < prev.len() ==> ids.contains(#[trigger] prev[t]));
                        let idc = b.id.clone();
                        assert(idc@ == b@.id);
                        append_unique(&mut matched, idc);
                        proof {
                            assert forall|t: int| 0 <= t < matched.len() implies ids.contains(
                                #[trigger] texts_view(matched@)[t],
                            ) by {
                                if t < prev.len() {
                                    assert(texts_view(matched@)[t] == prev[t]);
                                } else {
                                    assert(texts_view(matched@) == prev.push(b@.id));
                                    assert(texts_view(matched@)[t] == b@.id);
                                }
                            }
                        }
                    },
                    None => {},
                }
                changes.push(Change { line, source_lines: lines, notes, kind, before, after });
                proof {
                    assert(ids_of(changes_view(changes@)) =~= fresh1);
                    lemma_merge_fresh(gs, es, by_id, deck@, now, fresh0, fresh1, k as int);
                    assert(changes_view(changes@) =~= merge_groups(gs, es, by_id, deck@, now, fresh1, k + 1).changes);
                }
            }
            k = k + 1;
            assert(rest@ =~= all.skip(k as int));
        }
        let ghost fin = merge_groups(gs, es, by_id, deck@, now, ids_of(changes_view(changes@)), all.len() as int);
        proof {
            assert(gs.take(all.len() as int) =~= gs);
            lemma_matched_bound(texts_view(matched@), es.map_values(|c: CardV| c.id));
        }
        let missing = ex.len() - matched.len();
        let p = ImportPreview {
            revision: self.state.revision,
            deck_id: deck.to_owned(),
            mapping,
            changes,
            errors,
            missing,
            merged_rows: merged,
        };
        assert(written_ids(p@) =~= ids_of(changes_view(p.changes@)));
        assert(p@.changes =~= changes_view(p.changes@));
        assert(p@.errors =~= issues_view(p.errors@));
        Ok(p)
    }
}

} // verus!
