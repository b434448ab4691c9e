use vstd::prelude::*;
use vstd::string::{StrSliceExecFns, StringExecFns};
use crate::dictionary::texts_of;
use crate::patterns::{
    all_matches, captures, captures_all, first_match, group, group_text, groups_of, lines_in,
    lines_of, lowercase, matches_of, trimmed, Groups,
};
use crate::text::{
    byte_len, chars_of, contains_text, decimal, decimal_text, ends_with, first_chars,
    first_chars_exec, parse_u64, spelled_u64, starts_with, string_of, text_contains,
    text_ends_with, text_starts_with, utf8_len,
};

verus! {

/// How an evaluation ended.
#[derive(Clone, Copy, Debug, PartialEq, Eq, Structural)]
pub enum EvaluationStatus {
    Success,
    Failed,
    Timeout,
    ParseError,
}

/// What was read from the output of one evaluation.
#[derive(Clone, Debug, PartialEq, Eq)]
pub struct EvaluationMetrics {
    pub model_name: String,
    pub score: Option<u8>,
    pub duration_seconds: Option<u64>,
    pub prompt_tokens: Option<u32>,
    pub completion_tokens: Option<u32>,
    pub model_size: String,
    pub strengths: Vec<String>,
    pub issues: Vec<String>,
    pub primary_recommendation: Option<String>,
    pub status: EvaluationStatus,
    pub timestamp: String,
    pub prompt_used: String,
}

impl EvaluationMetrics {
    /// The same metrics, with `prompt` as the prompt that was used.
    pub fn with_prompt_used(self, prompt: String) -> (r: Self)
        ensures
            r == (EvaluationMetrics { prompt_used: prompt, ..self }),
    {
        let mut r = self;
        r.prompt_used = prompt;
        r
    }
}

/// Renders evaluation results as text.
#[derive(Clone, Copy, Debug, PartialEq, Eq, Structural)]
pub struct VisualizationGenerator;

/// The character `c`, `n` times.
pub open spec fn repeated(c: char, n: nat) -> Seq<char> {
    Seq::new(n, |i: int| c)
}

/// The bar for a score out of 10: a full block for each point, and a light
/// one for each point that is missing.
pub open spec fn bar(score: nat) -> Seq<char> {
    repeated('\u{2588}', score) + repeated('\u{2591}', (10 - score) as nat)
}

/// The label of a model in the chart: a name of more than 20 bytes is cut
/// to its first 17 characters and `...`; any other name is filled up with
/// blanks to 20 characters.
pub open spec fn label(name: Seq<char>) -> Seq<char> {
    if utf8_len(name) > 20 {
        first_chars(name, 17) + "..."@
    } else if name.len() < 20 {
        name + repeated(' ', (20 - name.len()) as nat)
    } else {
        name
    }
}

/// The score that is drawn for a result: 0 where it has none.
pub open spec fn drawn_score(metric: EvaluationMetrics) -> nat {
    match metric.score {
        Some(score) => score as nat,
        None => 0,
    }
}

/// The line of the chart for one result.
pub open spec fn chart_line(metric: EvaluationMetrics) -> Seq<char> {
    label(metric.model_name@) + " "@ + bar(drawn_score(metric)) + " "@ + decimal(
        drawn_score(metric),
    ) + "/10\n"@
}

/// The lines of the chart for the given results, in order.
pub open spec fn chart_lines(metrics: Seq<EvaluationMetrics>) -> Seq<char>
    decreases metrics.len(),
{
    if metrics.len() == 0 {
        Seq::empty()
    } else {
        chart_lines(metrics.drop_last()) + chart_line(metrics.last())
    }
}

/// The chart of the scores of the given results.
pub open spec fn score_chart(metrics: Seq<EvaluationMetrics>) -> Seq<char> {
    "Model Performance Chart (Score out of 10)\n"@ + "0    2    4    6    8    10\n"@
        + "|    |    |    |    |    |\n"@ + chart_lines(metrics)
}

/// The sign for a status.
pub open spec fn status_sign(status: EvaluationStatus) -> Seq<char> {
    match status {
        EvaluationStatus::Success => "\u{2705}"@,
        EvaluationStatus::Failed => "\u{274c}"@,
        EvaluationStatus::Timeout => "\u{23f0}"@,
        EvaluationStatus::ParseError => "\u{26a0}\u{fe0f}"@,
    }
}

/// The duration of a result as text: the seconds and `s`, or `N/A`.
pub open spec fn duration_text(duration: Option<u64>) -> Seq<char> {
    match duration {
        Some(d) => decimal(d as nat) + "s"@,
        None => "N/A"@,
    }
}

/// A count of tokens that may be missing: 0 where it is.
pub open spec fn tokens_or_zero(tokens: Option<u32>) -> nat {
    match tokens {
        Some(n) => n as nat,
        None => 0,
    }
}

/// The cells of a row that show the model and its score.
pub open spec fn score_cells(metric: EvaluationMetrics) -> Seq<char> {
    "| "@ + metric.model_name@ + " | "@ + bar(drawn_score(metric)) + " | "@ + decimal(
        drawn_score(metric),
    ) + "/10 | "@
}

/// The cells of a row that show the duration and the tokens.
pub open spec fn usage_cells(metric: EvaluationMetrics) -> Seq<char> {
    duration_text(metric.duration_seconds) + " | "@ + decimal(
        tokens_or_zero(metric.prompt_tokens),
    ) + "/"@ + decimal(tokens_or_zero(metric.completion_tokens)) + " | "@
}

/// The cells of a row that show the size of the model and the status.
pub open spec fn status_cells(metric: EvaluationMetrics) -> Seq<char> {
    metric.model_size@ + " | "@ + status_sign(metric.status) + " |\n"@
}

/// The row of the comparison table for one result.
pub open spec fn table_row(metric: EvaluationMetrics) -> Seq<char> {
    score_cells(metric) + usage_cells(metric) + status_cells(metric)
}

/// The rows of the comparison table for the given results, in order.
pub open spec fn table_rows(metrics: Seq<EvaluationMetrics>) -> Seq<char>
    decreases metrics.len(),
{
    if metrics.len() == 0 {
        Seq::empty()
    } else {
        table_rows(metrics.drop_last()) + table_row(metrics.last())
    }
}

/// The comparison table of the given results.
pub open spec fn comparison_table(metrics: Seq<EvaluationMetrics>) -> Seq<char> {
    "| Model | Visual Score | Score | Duration | Tokens (P/C) | Size | Status |\n"@
        + "|-------|-------------|-------|----------|--------------|------|--------|\n"@
        + table_rows(metrics)
}

/// No result has a score above 10.
pub open spec fn scores_in_range(metrics: Seq<EvaluationMetrics>) -> bool {
    forall|i: int| 0 <= i < metrics.len() ==> drawn_score(#[trigger] metrics[i]) <= 10
}

/// Appends `c` to `out`, `n` times.
fn append_repeated(out: &mut String, c: char, n: usize)
    ensures
        final(out)@ == old(out)@ + repeated(c, n as nat),
{
    let mut i: usize = 0;
    assert(out@ + repeated(c, 0) =~= out@);
    while i < n
        invariant
            i <= n,
            out@ == old(out)@ + repeated(c, i as nat),
        decreases n - i,
    {
        out.push(c);
        assert(repeated(c, (i + 1) as nat) =~= repeated(c, i as nat).push(c));
        assert(out@ =~= old(out)@ + repeated(c, (i + 1) as nat));
        i += 1;
    }
}

/// Appends the bar for `score` to `out`.
fn append_bar(out: &mut String, score: u8)
    requires
        score <= 10,
    ensures
        final(out)@ == old(out)@ + bar(score as nat),
{
    append_repeated(out, '\u{2588}', score as usize);
    append_repeated(out, '\u{2591}', (10 - score) as usize);
    assert(out@ =~= old(out)@ + bar(score as nat));
}

/// Appends the label of a model to `out`.
fn append_label(out: &mut String, name: &str)
    ensures
        final(out)@ == old(out)@ + label(name@),
{
    if byte_len(name) > 20 {
        let chars = chars_of(name);
        let cut = string_of(&first_chars_exec(&chars, 17));
        out.append(cut.as_str());
        out.append("...");
        assert(out@ =~= old(out)@ + label(name@));
    } else {
        out.append(name);
        let count = name.unicode_len();
        if count < 20 {
            append_repeated(out, ' ', 20 - count);
        }
        assert(out@ =~= old(out)@ + label(name@));
    }
}

impl VisualizationGenerator {
    /// The chart of the scores of the given results: a heading, and a line
    /// with a bar for each result. A result without a score is drawn with
    /// the score 0.
    pub fn generate_score_chart(metrics: &Vec<EvaluationMetrics>) -> (chart: String)
        requires
            scores_in_range(metrics@),
        ensures
            chart@ == score_chart(metrics@),
    {
        let mut chart = String::new();
        chart.append("Model Performance Chart (Score out of 10)\n");
        chart.append("0    2    4    6    8    10\n");
        chart.append("|    |    |    |    |    |\n");
        let ghost head = chart@;
        let mut i: usize = 0;
        assert(metrics@.take(0) =~= Seq::<EvaluationMetrics>::empty());
        assert(head + chart_lines(metrics@.take(0)) =~= head);
        while i < metrics.len()
            invariant
                i <= metrics.len(),
                scores_in_range(metrics@),
                chart@ == head + chart_lines(metrics@.take(i as int)),
            decreases metrics.len() - i,
        {
            let ghost before = chart@;
            assert(metrics@.take(i + 1).drop_last() == metrics@.take(i as int));
            assert(metrics@.take(i + 1).last() == metrics[i as int]);
            let score: u8 = match metrics[i].score {
                Some(score) => score,
                None => 0,
            };
            assert(score as nat == drawn_score(metrics[i as int]));
            append_label(&mut chart, metrics[i].model_name.as_str());
            chart.append(" ");
            append_bar(&mut chart, score);
            chart.append(" ");
            chart.append(decimal_text(score as u128).as_str());
            chart.append("/10\n");
            assert(chart@ =~= before + chart_line(metrics[i as int]));
            assert(chart@ =~= head + chart_lines(metrics@.take(i + 1)));
            i += 1;
        }
        assert(metrics@.take(i as int) == metrics@);
        assert(chart@ =~= score_chart(metrics@));
        chart
    }

    /// The comparison table of the given results: a heading, and a row for
    /// each result.
    pub fn generate_comparison_table(metrics: &Vec<EvaluationMetrics>) -> (table: String)
        requires
            scores_in_range(metrics@),
        ensures
            table@ == comparison_table(metrics@),
    {
        let mut table = String::new();
        table.append("| Model | Visual Score | Score | Duration | Tokens (P/C) | Size | Status |\n");
        table.append("|-------|-------------|-------|----------|--------------|------|--------|\n");
        let ghost head = table@;
        let mut i: usize = 0;
        assert(metrics@.take(0) =~= Seq::<EvaluationMetrics>::empty());
        assert(head + table_rows(metrics@.take(0)) =~= head);
        while i < metrics.len()
            invariant
                i <= metrics.len(),
                scores_in_range(metrics@),
                table@ == head + table_rows(metrics@.take(i as int)),
            decreases metrics.len() - i,
        {
            let ghost before = table@;
            assert(metrics@.take(i + 1).drop_last() == metrics@.take(i as int));
            assert(metrics@.take(i + 1).last() == metrics[i as int]);
            assert(drawn_score(metrics@[i as int]) <= 10);
            append_score_cells(&mut table, &metrics[i]);
            append_usage_cells(&mut table, &metrics[i]);
            append_status_cells(&mut table, &metrics[i]);
            assert(table@ =~= before + table_row(metrics[i as int]));
            assert(table@ =~= head + table_rows(metrics@.take(i + 1)));
            i += 1;
        }
        assert(metrics@.take(i as int) == metrics@);
        assert(table@ =~= comparison_table(metrics@));
        table
    }
}

/// Appends the cells that show the model and its score.
fn append_score_cells(out: &mut String, metric: &EvaluationMetrics)
    requires
        drawn_score(*metric) <= 10,
    ensures
        final(out)@ == old(out)@ + score_cells(*metric),
{
    let score: u8 = match metric.score {
        Some(score) => score,
        None => 0,
    };
    out.append("| ");
    out.append(metric.model_name.as_str());
    out.append(" | ");
    append_bar(out, score);
    out.append(" | ");
    out.append(decimal_text(score as u128).as_str());
    out.append("/10 | ");
    assert(out@ =~= old(out)@ + score_cells(*metric));
}

/// Appends the cells that show the duration and the tokens.
fn append_usage_cells(out: &mut String, metric: &EvaluationMetrics)
    ensures
        final(out)@ == old(out)@ + usage_cells(*metric),
{
    match metric.duration_seconds {
        Some(d) => {
            out.append(decimal_text(d as u128).as_str());
            out.append("s");
        },
        None => {
            out.append("N/A");
        },
    }
    assert(out@ =~= old(out)@ + duration_text(metric.duration_seconds));
    let prompt: u32 = match metric.prompt_tokens {
        Some(n) => n,
        None => 0,
    };
    let completion: u32 = match metric.completion_tokens {
        Some(n) => n,
        None => 0,
    };
    out.append(" | ");
    out.append(decimal_text(prompt as u128).as_str());
    out.append("/");
    out.append(decimal_text(completion as u128).as_str());
    out.append(" | ");
    assert(out@ =~= old(out)@ + usage_cells(*metric));
}

/// Appends the cells that show the size of the model and the status.
fn append_status_cells(out: &mut String, metric: &EvaluationMetrics)
    ensures
        final(out)@ == old(out)@ + status_cells(*metric),
{
    out.append(metric.model_size.as_str());
    out.append(" | ");
    match metric.status {
        EvaluationStatus::Success => {
            out.append("\u{2705}");
        },
        EvaluationStatus::Failed => {
            out.append("\u{274c}");
        },
        EvaluationStatus::Timeout => {
            out.append("\u{23f0}");
        },
        EvaluationStatus::ParseError => {
            out.append("\u{26a0}\u{fe0f}");
        },
    }
    out.append(" |\n");
    assert(out@ =~= old(out)@ + status_cells(*metric));
}


/// The place of the first of the highest scores among the results, if any
/// result has a score.
pub open spec fn best_of(metrics: Seq<EvaluationMetrics>) -> Option<int>
    decreases metrics.len(),
{
    if metrics.len() == 0 {
        None
    } else {
        match (best_of(metrics.drop_last()), metrics.last().score) {
            (Some(b), Some(score)) => if score > metrics[b].score->Some_0 {
                Some(metrics.len() - 1)
            } else {
                Some(b)
            },
            (Some(b), None) => Some(b),
            (None, Some(_)) => Some(metrics.len() - 1),
            (None, None) => None,
        }
    }
}

/// The place of the first of the lowest scores among the results, if any
/// result has a score.
pub open spec fn worst_of(metrics: Seq<EvaluationMetrics>) -> Option<int>
    decreases metrics.len(),
{
    if metrics.len() == 0 {
        None
    } else {
        match (worst_of(metrics.drop_last()), metrics.last().score) {
            (Some(w), Some(score)) => if score < metrics[w].score->Some_0 {
                Some(metrics.len() - 1)
            } else {
                Some(w)
            },
            (Some(w), None) => Some(w),
            (None, Some(_)) => Some(metrics.len() - 1),
            (None, None) => None,
        }
    }
}

/// The number of results that ended in success.
pub open spec fn successes(metrics: Seq<EvaluationMetrics>) -> nat
    decreases metrics.len(),
{
    if metrics.len() == 0 {
        0
    } else if metrics.last().status == EvaluationStatus::Success {
        successes(metrics.drop_last()) + 1
    } else {
        successes(metrics.drop_last())
    }
}

/// The sum of the scores of the results that have one.
pub open spec fn score_sum(metrics: Seq<EvaluationMetrics>) -> nat
    decreases metrics.len(),
{
    if metrics.len() == 0 {
        0
    } else {
        score_sum(metrics.drop_last()) + drawn_score(metrics.last())
    }
}

/// The number of results that have a score.
pub open spec fn score_count(metrics: Seq<EvaluationMetrics>) -> nat
    decreases metrics.len(),
{
    if metrics.len() == 0 {
        0
    } else if metrics.last().score is Some {
        score_count(metrics.drop_last()) + 1
    } else {
        score_count(metrics.drop_last())
    }
}

/// The line that names a model with its score.
pub open spec fn performer_line(title: Seq<char>, metric: EvaluationMetrics) -> Seq<char> {
    "- **"@ + title + ":** "@ + metric.model_name@ + " ("@ + decimal(drawn_score(metric))
        + "/10)\n"@
}

/// The lines on the scores: the average, the first model with the highest
/// score and the first with the lowest. They are there where a result has
/// a score.
pub open spec fn score_lines(metrics: Seq<EvaluationMetrics>, average: Seq<char>) -> Seq<char> {
    match (best_of(metrics), worst_of(metrics)) {
        (Some(b), Some(w)) => "- **Average Score:** "@ + average + "/10\n"@ + performer_line(
            "Best Performer"@,
            metrics[b],
        ) + performer_line("Needs Improvement"@, metrics[w]),
        _ => Seq::empty(),
    }
}

/// The lines that count the results.
pub open spec fn count_lines(metrics: Seq<EvaluationMetrics>) -> Seq<char> {
    "- **Successful Evaluations:** "@ + decimal(successes(metrics)) + "/"@ + decimal(
        metrics.len(),
    ) + "\n"@ + "- **Total Models Evaluated:** "@ + decimal(metrics.len()) + "\n"@
}

/// The statistics over the given results, with `average` as the text of
/// the average score.
pub open spec fn statistics(metrics: Seq<EvaluationMetrics>, average: Seq<char>) -> Seq<char> {
    score_lines(metrics, average) + count_lines(metrics)
}

/// The result at `best_of` has a score that no other result exceeds, and
/// no result before it has that score; the result at `worst_of` has a
/// score that no other result goes below, and no result before it has that
/// score. Where either is missing, no result has a score.
pub proof fn law_best_and_worst(metrics: Seq<EvaluationMetrics>)
    ensures
        best_of(metrics) is None ==> forall|j: int|
            0 <= j < metrics.len() ==> (#[trigger] metrics[j]).score is None,
        worst_of(metrics) is None ==> forall|j: int|
            0 <= j < metrics.len() ==> (#[trigger] metrics[j]).score is None,
        match best_of(metrics) {
            Some(b) => {
                &&& 0 <= b < metrics.len()
                &&& metrics[b].score is Some
                &&& forall|j: int|
                    0 <= j < metrics.len() && (#[trigger] metrics[j]).score is Some
                        ==> metrics[j].score->Some_0 <= metrics[b].score->Some_0
                &&& forall|j: int|
                    0 <= j < b ==> (#[trigger] metrics[j]).score != metrics[b].score
            },
            None => true,
        },
        match worst_of(metrics) {
            Some(w) => {
                &&& 0 <= w < metrics.len()
                &&& metrics[w].score is Some
                &&& forall|j: int|
                    0 <= j < metrics.len() && (#[trigger] metrics[j]).score is Some
                        ==> metrics[j].score->Some_0 >= metrics[w].score->Some_0
                &&& forall|j: int|
                    0 <= j < w ==> (#[trigger] metrics[j]).score != metrics[w].score
            },
            None => true,
        },
    decreases metrics.len(),
{
    if metrics.len() > 0 {
        let front = metrics.drop_last();
        let n = metrics.len() - 1;
        law_best_and_worst(front);
        assert forall|j: int| 0 <= j < n implies #[trigger] front[j] == metrics[j] by {}
        if best_of(metrics) is None || worst_of(metrics) is None {
            assert forall|j: int| 0 <= j < metrics.len() implies (#[trigger] metrics[j]).score is None by {
                if j < n {
                    assert(front[j] == metrics[j]);
                }
            }
        }
        match best_of(metrics) {
            Some(b) => {
                assert forall|j: int|
                    0 <= j < metrics.len() && (#[trigger] metrics[j]).score is Some implies metrics[j].score->Some_0
                    <= metrics[b].score->Some_0 by {
                    if j < n {
                        assert(front[j].score is Some);
                        let b0 = best_of(front)->Some_0;
                        assert(front[j].score->Some_0 <= front[b0].score->Some_0);
                        assert(front[b0] == metrics[b0]);
                    }
                }
                assert forall|j: int| 0 <= j < b implies (#[trigger] metrics[j]).score
                    != metrics[b].score by {
                    assert(front[j] == metrics[j]);
                    if b == n && front[j].score is Some {
                        let b0 = best_of(front)->Some_0;
                        assert(front[j].score->Some_0 <= front[b0].score->Some_0);
                        assert(front[b0] == metrics[b0]);
                    }
                }
            },
            None => {},
        }
        match worst_of(metrics) {
            Some(w) => {
                assert forall|j: int|
                    0 <= j < metrics.len() && (#[trigger] metrics[j]).score is Some implies metrics[j].score->Some_0
                    >= metrics[w].score->Some_0 by {
                    if j < n {
                        assert(front[j].score is Some);
                        let w0 = worst_of(front)->Some_0;
                        assert(front[j].score->Some_0 >= front[w0].score->Some_0);
                        assert(front[w0] == metrics[w0]);
                    }
                }
                assert forall|j: int| 0 <= j < w implies (#[trigger] metrics[j]).score
                    != metrics[w].score by {
                    assert(front[j] == metrics[j]);
                    if w == n && front[j].score is Some {
                        let w0 = worst_of(front)->Some_0;
                        assert(front[j].score->Some_0 >= front[w0].score->Some_0);
                        assert(front[w0] == metrics[w0]);
                    }
                }
            },
            None => {},
        }
    }
}

/// Appends the line that names a model with its score.
fn append_performer(out: &mut String, title: &str, metric: &EvaluationMetrics)
    ensures
        final(out)@ == old(out)@ + performer_line(title@, *metric),
{
    let score: u8 = match metric.score {
        Some(score) => score,
        None => 0,
    };
    out.append("- **");
    out.append(title);
    out.append(":** ");
    out.append(metric.model_name.as_str());
    out.append(" (");
    out.append(decimal_text(score as u128).as_str());
    out.append("/10)\n");
    assert(out@ =~= old(out)@ + performer_line(title@, *metric));
}

impl VisualizationGenerator {
    /// The sum of the scores of the results that have one, and their
    /// number.
    pub fn score_totals(metrics: &Vec<EvaluationMetrics>) -> (r: (u128, usize))
        ensures
            r.0 == score_sum(metrics@),
            r.1 == score_count(metrics@),
    {
        let mut sum: u128 = 0;
        let mut count: usize = 0;
        let mut i: usize = 0;
        assert(metrics@.take(0) =~= Seq::<EvaluationMetrics>::empty());
        while i < metrics.len()
            invariant
                i <= metrics.len(),
                sum == score_sum(metrics@.take(i as int)),
                count == score_count(metrics@.take(i as int)),
                count <= i,
                sum <= 255 * i,
            decreases metrics.len() - i,
        {
            assert(metrics@.take(i + 1).drop_last() == metrics@.take(i as int));
            assert(metrics@.take(i + 1).last() == metrics[i as int]);
            match metrics[i].score {
                Some(score) => {
                    sum = sum + score as u128;
                    count = count + 1;
                },
                None => {},
            }
            i += 1;
        }
        assert(metrics@.take(i as int) == metrics@);
        (sum, count)
    }

    /// The statistics over the given results: where a result has a score,
    /// the average score, the first model with the highest score and the
    /// first with the lowest; then the number of successful evaluations and
    /// the number of results. `average` is the text of the average score.
    pub fn generate_statistics(metrics: &Vec<EvaluationMetrics>, average: &str) -> (stats: String)
        ensures
            stats@ == statistics(metrics@, average@),
    {
        let mut best: Option<usize> = None;
        let mut worst: Option<usize> = None;
        let mut succeeded: usize = 0;
        let mut i: usize = 0;
        assert(metrics@.take(0) =~= Seq::<EvaluationMetrics>::empty());
        while i < metrics.len()
            invariant
                i <= metrics.len(),
                succeeded == successes(metrics@.take(i as int)),
                succeeded <= i,
                match best {
                    Some(b) => best_of(metrics@.take(i as int)) == Some(b as int) && b < i
                        && metrics[b as int].score is Some,
                    None => best_of(metrics@.take(i as int)) is None,
                },
                match worst {
                    Some(w) => worst_of(metrics@.take(i as int)) == Some(w as int) && w < i
                        && metrics[w as int].score is Some,
                    None => worst_of(metrics@.take(i as int)) is None,
                },
            decreases metrics.len() - i,
        {
            assert(metrics@.take(i + 1).drop_last() == metrics@.take(i as int));
            assert(metrics@.take(i + 1).last() == metrics[i as int]);
            match metrics[i].score {
                Some(score) => {
                    best = match best {
                        Some(b) => {
                            assert(metrics@.take(i + 1)[b as int] == metrics[b as int]);
                            if score > metrics[b].score.unwrap() {
                                Some(i)
                            } else {
                                Some(b)
                            }
                        },
                        None => Some(i),
                    };
                    worst = match worst {
                        Some(w) => {
                            assert(metrics@.take(i + 1)[w as int] == metrics[w as int]);
                            if score < metrics[w].score.unwrap() {
                                Some(i)
                            } else {
                                Some(w)
                            }
                        },
                        None => Some(i),
                    };
                },
                None => {},
            }
            match metrics[i].status {
                EvaluationStatus::Success => {
                    succeeded = succeeded + 1;
                },
                _ => {},
            }
            i += 1;
        }
        assert(metrics@.take(i as int) == metrics@);
        let mut stats = String::new();
        match (best, worst) {
            (Some(b), Some(w)) => {
                stats.append("- **Average Score:** ");
                stats.append(average);
                stats.append("/10\n");
                append_performer(&mut stats, "Best Performer", &metrics[b]);
                append_performer(&mut stats, "Needs Improvement", &metrics[w]);
                assert(stats@ =~= score_lines(metrics@, average@));
            },
            _ => {
                assert(stats@ =~= score_lines(metrics@, average@));
            },
        }
        let ghost head = stats@;
        stats.append("- **Successful Evaluations:** ");
        stats.append(decimal_text(succeeded as u128).as_str());
        stats.append("/");
        stats.append(decimal_text(metrics.len() as u128).as_str());
        stats.append("\n");
        stats.append("- **Total Models Evaluated:** ");
        stats.append(decimal_text(metrics.len() as u128).as_str());
        stats.append("\n");
        assert(stats@ =~= head + count_lines(metrics@));
        stats
    }
}

/// Reads evaluation results out of the text that a model produced, with
/// patterns of which the more exact ones are tried first.
#[derive(Debug, PartialEq, Eq)]
pub struct EvaluationParser {
    pub score_patterns: Vec<String>,
    pub strength_patterns: Vec<String>,
    pub issue_patterns: Vec<String>,
    pub token_patterns: Vec<String>,
    pub duration_patterns: Vec<String>,
}

/// The patterns for a score out of 10.
pub open spec fn score_patterns() -> Seq<Seq<char>> {
    seq![
        "\\*\\*Score[:\\s]*(\\d+)/10\\*\\*"@,
        "Score[:\\s]*(\\d+)/10"@,
        "^(\\d+)/10"@,
        "(\\d+)/10"@,
        "[Rr]ating[:\\s]*(\\d+)\\s*out of 10"@,
    ]
}

/// The patterns for the list of strengths.
pub open spec fn strength_patterns() -> Seq<Seq<char>> {
    seq![
        "(?i)\\*\\*strengths:\\*\\*\\s*\\n((?:\\d+\\.\\s*.+\\n?)+)"@,
        "(?i)\\*\\*strengths:\\*\\*\\s*\\n((?:[-*]\\s*.+\\n?)+)"@,
        "(?i)strengths:\\s*\\n((?:.+\\n?)+?)(?:\\n\\*\\*|\\n[A-Z]|$)"@,
    ]
}

/// The patterns for the list of issues.
pub open spec fn issue_patterns() -> Seq<Seq<char>> {
    seq![
        "(?i)\\*\\*issues:\\*\\*\\s*\\n((?:\\d+\\.\\s*.+\\n?)+)"@,
        "(?i)\\*\\*issues:\\*\\*\\s*\\n((?:[-*]\\s*.+\\n?)+)"@,
        "(?i)issues:\\s*\\n((?:.+\\n?)+?)(?:\\n\\*\\*|\\n[A-Z]|$)"@,
    ]
}

/// The patterns for the counts of tokens.
pub open spec fn token_patterns() -> Seq<Seq<char>> {
    seq![
        "Prompt Tokens:\\s*(\\d+)"@,
        "Completion Tokens:\\s*(\\d+)"@,
        "Input tokens:\\s*(\\d+)"@,
        "Output tokens:\\s*(\\d+)"@,
    ]
}

/// The patterns for the duration.
pub open spec fn duration_patterns() -> Seq<Seq<char>> {
    seq![
        "Duration:\\s*(\\d+)s"@,
        "Duration:\\s*(\\d+)m\\s*(\\d+)s"@,
        "(\\d+)s\\s*(\\d+)ms"@,
        "\\*\\*Duration:\\*\\*\\s*(\\d+)s"@,
    ]
}

/// The texts of a list of string slices, in order.
pub open spec fn slices_view(list: Seq<&'static str>) -> Seq<Seq<char>> {
    Seq::new(list.len(), |i: int| list[i]@)
}

/// Owned copies of the given string slices, in order.
fn owned(list: &Vec<&'static str>) -> (out: Vec<String>)
    ensures
        texts_of(out@) == slices_view(list@),
{
    let mut out: Vec<String> = Vec::new();
    let mut i: usize = 0;
    while i < list.len()
        invariant
            i <= list.len(),
            out.len() == i,
            forall|k: int| 0 <= k < i ==> (#[trigger] out[k])@ == list[k]@,
        decreases list.len() - i,
    {
        out.push(list[i].to_owned());
        i += 1;
    }
    assert(texts_of(out@) =~= slices_view(list@));
    out
}

/// The score that one pattern finds: the number that the first group of
/// its first match spells, where that is at most 10.
pub open spec fn score_by(pattern: Seq<char>, content: Seq<char>) -> Option<u8> {
    match first_match(pattern, content) {
        Some(groups) => match group(groups, 1) {
            Some(text) => match spelled_u64(text) {
                Some(n) => if n <= 10 {
                    Some(n as u8)
                } else {
                    None
                },
                None => None,
            },
            None => None,
        },
        None => None,
    }
}

/// The score that the first of the patterns finds that finds one.
pub open spec fn first_score(patterns: Seq<Seq<char>>, content: Seq<char>) -> Option<u8>
    decreases patterns.len(),
{
    if patterns.len() == 0 {
        None
    } else {
        match score_by(patterns[0], content) {
            Some(score) => Some(score),
            None => first_score(patterns.drop_first(), content),
        }
    }
}

/// The number that group `i` of a match spells.
pub open spec fn group_number(groups: Groups, i: int) -> Option<u64> {
    match group(groups, i) {
        Some(text) => spelled_u64(text),
        None => None,
    }
}

/// The duration in seconds that one pattern finds: the seconds of a
/// pattern with one group, the minutes and seconds of a pattern with two,
/// where they fit 64 bits.
pub open spec fn duration_by(pattern: Seq<char>, content: Seq<char>) -> Option<u64> {
    match first_match(pattern, content) {
        Some(groups) => if groups.len() == 2 {
            group_number(groups, 1)
        } else if groups.len() == 3 {
            match (group_number(groups, 1), group_number(groups, 2)) {
                (Some(minutes), Some(seconds)) => if minutes * 60 + seconds <= u64::MAX {
                    Some((minutes * 60 + seconds) as u64)
                } else {
                    None
                },
                _ => None,
            }
        } else {
            None
        },
        None => None,
    }
}

/// The duration that the first of the patterns finds that finds one.
pub open spec fn first_duration(patterns: Seq<Seq<char>>, content: Seq<char>) -> Option<u64>
    decreases patterns.len(),
{
    if patterns.len() == 0 {
        None
    } else {
        match duration_by(patterns[0], content) {
            Some(d) => Some(d),
            None => first_duration(patterns.drop_first(), content),
        }
    }
}

/// The counts of prompt tokens and of completion tokens after one match of
/// a pattern: the number that its first group spells is the count of the
/// kind that the pattern names.
pub open spec fn tokens_after_match(
    counts: (Option<u32>, Option<u32>),
    pattern: Seq<char>,
    groups: Groups,
) -> (Option<u32>, Option<u32>) {
    match group_number(groups, 1) {
        Some(n) => if n > u32::MAX {
            counts
        } else if contains_text(pattern, "Prompt"@) || contains_text(pattern, "Input"@) {
            (Some(n as u32), counts.1)
        } else if contains_text(pattern, "Completion"@) || contains_text(pattern, "Output"@) {
            (counts.0, Some(n as u32))
        } else {
            counts
        },
        None => counts,
    }
}

/// The counts after the given matches of a pattern, in order.
pub open spec fn tokens_after_matches(
    counts: (Option<u32>, Option<u32>),
    pattern: Seq<char>,
    matches: Seq<Groups>,
) -> (Option<u32>, Option<u32>)
    decreases matches.len(),
{
    if matches.len() == 0 {
        counts
    } else {
        tokens_after_match(
            tokens_after_matches(counts, pattern, matches.drop_last()),
            pattern,
            matches.last(),
        )
    }
}

/// The counts after all matches of the given patterns, pattern by pattern.
pub open spec fn tokens_after_patterns(
    counts: (Option<u32>, Option<u32>),
    patterns: Seq<Seq<char>>,
    content: Seq<char>,
) -> (Option<u32>, Option<u32>)
    decreases patterns.len(),
{
    if patterns.len() == 0 {
        counts
    } else {
        tokens_after_matches(
            tokens_after_patterns(counts, patterns.drop_last(), content),
            patterns.last(),
            all_matches(patterns.last(), content),
        )
    }
}

/// The pattern for one item of a numbered or bulleted list.
pub open spec fn item_pattern() -> Seq<char> {
    "(?m)^(?:\\d+\\.|\\*|-)\\s*(.+)$"@
}

/// The items that the given matches of the item pattern hold: the text of
/// the first group without the white space at its ends, where that is not
/// empty.
pub open spec fn items_in(matches: Seq<Groups>) -> Seq<Seq<char>>
    decreases matches.len(),
{
    if matches.len() == 0 {
        Seq::empty()
    } else {
        match group(matches.last(), 1) {
            Some(text) => if trimmed(text).len() > 0 {
                items_in(matches.drop_last()).push(trimmed(text))
            } else {
                items_in(matches.drop_last())
            },
            None => items_in(matches.drop_last()),
        }
    }
}

/// The items of a numbered or bulleted list.
pub open spec fn list_items(text: Seq<char>) -> Seq<Seq<char>> {
    items_in(all_matches(item_pattern(), text))
}

/// The text of the first group of the first of the patterns that matches
/// with that group.
pub open spec fn first_block(patterns: Seq<Seq<char>>, content: Seq<char>) -> Option<Seq<char>>
    decreases patterns.len(),
{
    if patterns.len() == 0 {
        None
    } else {
        match first_match(patterns[0], content) {
            Some(groups) => match group(groups, 1) {
                Some(text) => Some(text),
                None => first_block(patterns.drop_first(), content),
            },
            None => first_block(patterns.drop_first(), content),
        }
    }
}

/// The text holds one of the words.
pub open spec fn holds_any(text: Seq<char>, words: Seq<Seq<char>>) -> bool {
    exists|i: int| 0 <= i < words.len() && contains_text(text, #[trigger] words[i])
}

/// The lines that follow the heading of a section and hold one of the
/// keywords, without the white space at their ends.
///
/// A line that names the section, in whatever case, is its heading, and
/// starts the count of lines anew. Behind a heading, a line counts where it
/// holds a keyword, in whatever case. The search ends behind the tenth line
/// after the heading, and with a line that begins and ends with `**`.
/// `in_section` and `since` say whether a heading was met, and how many
/// lines ago.
pub open spec fn keyword_lines(
    lines: Seq<Seq<char>>,
    section: Seq<char>,
    keywords: Seq<Seq<char>>,
    in_section: bool,
    since: nat,
) -> Seq<Seq<char>>
    decreases lines.len(),
{
    if lines.len() == 0 {
        Seq::empty()
    } else if contains_text(lowercase(lines[0]), section) {
        keyword_lines(lines.drop_first(), section, keywords, true, 0)
    } else if !in_section {
        keyword_lines(lines.drop_first(), section, keywords, false, since)
    } else if since + 1 > 10 {
        Seq::empty()
    } else {
        let here = if holds_any(lowercase(lines[0]), keywords) {
            seq![trimmed(lines[0])]
        } else {
            Seq::empty()
        };
        if starts_with(lines[0], "**"@) && ends_with(lines[0], "**"@) {
            here
        } else {
            here + keyword_lines(lines.drop_first(), section, keywords, true, since + 1)
        }
    }
}

/// The keywords that mark a strength.
pub open spec fn strength_words() -> Seq<Seq<char>> {
    seq!["good"@, "excellent"@, "proper"@, "well"@, "effective"@, "strong"@, "robust"@]
}

/// The keywords that mark an issue.
pub open spec fn issue_words() -> Seq<Seq<char>> {
    seq!["problem"@, "issue"@, "error"@, "missing"@, "poor"@, "weak"@, "bad"@, "incorrect"@]
}

/// The findings of one kind: the items of the list that the first pattern
/// with a match finds; where no pattern matches, the lines of the section
/// that hold a keyword.
pub open spec fn findings(
    patterns: Seq<Seq<char>>,
    content: Seq<char>,
    section: Seq<char>,
    keywords: Seq<Seq<char>>,
) -> Seq<Seq<char>> {
    match first_block(patterns, content) {
        Some(block) => list_items(block),
        None => keyword_lines(lines_in(content), section, keywords, false, 0),
    }
}

/// The patterns for the primary recommendation.
pub open spec fn recommendation_patterns() -> Seq<Seq<char>> {
    seq![
        "(?i)\\*\\*Primary Recommendation:\\*\\*\\s*(.+?)(?:\\n\\*\\*|\\n##|$)"@,
        "(?i)recommendation[:\\s]*(.+?)(?:\\n|$)"@,
    ]
}

/// The primary recommendation: the text that the first pattern with a match
/// finds, without the white space at its ends.
pub open spec fn recommendation_in(content: Seq<char>) -> Option<Seq<char>> {
    match first_block(recommendation_patterns(), content) {
        Some(text) => Some(trimmed(text)),
        None => None,
    }
}

/// The status that the content tells: failed where it speaks of an error
/// or of failing, timed out where it speaks of a timeout; else a success
/// where it says so or has a score, and a parse error where it has none.
pub open spec fn status_in(patterns: Seq<Seq<char>>, content: Seq<char>) -> EvaluationStatus {
    let lower = lowercase(content);
    if contains_text(lower, "error"@) || contains_text(lower, "failed"@) {
        EvaluationStatus::Failed
    } else if contains_text(lower, "timeout"@) || contains_text(lower, "timed out"@) {
        EvaluationStatus::Timeout
    } else if contains_text(lower, "**status:** success"@) {
        EvaluationStatus::Success
    } else if first_score(patterns, content) is None {
        EvaluationStatus::ParseError
    } else {
        EvaluationStatus::Success
    }
}

/// The size of a model as its name tells it, whatever the case of the
/// name. A name that holds `27b` holds `7b` too, so the longer mark is
/// looked for before the shorter.
pub open spec fn size_in(model_name: Seq<char>) -> Seq<char> {
    let lower = lowercase(model_name);
    if contains_text(lower, "3b"@) {
        "3B"@
    } else if contains_text(lower, "27b"@) {
        "27B"@
    } else if contains_text(lower, "7b"@) {
        "7B"@
    } else if contains_text(lower, "8b"@) {
        "8B"@
    } else if contains_text(lower, "70b"@) {
        "70B"@
    } else if contains_text(lower, "latest"@) {
        "Variable"@
    } else {
        "Unknown"@
    }
}

/// `chrono::Utc::now` and `to_rfc3339` on it: the time of the call as text.
/// It depends on the clock, so nothing is said of it.
#[verifier::external_body]
fn timestamp_now() -> (text: String) {
    chrono::Utc::now().to_rfc3339()
}

/// Whether the text holds one of the words.
fn holds_any_exec(text: &str, words: &Vec<&'static str>) -> (r: bool)
    ensures
        r == holds_any(text@, slices_view(words@)),
{
    let mut i: usize = 0;
    while i < words.len()
        invariant
            i <= words.len(),
            forall|k: int| 0 <= k < i ==> !contains_text(text@, #[trigger] slices_view(words@)[k]),
        decreases words.len() - i,
    {
        if text_contains(text, words[i]) {
            assert(contains_text(text@, slices_view(words@)[i as int]));
            return true;
        }
        i += 1;
    }
    false
}

/// The text of the first group of the first of the patterns that matches
/// with that group.
#[verifier::loop_isolation(false)]
fn first_block_exec(patterns: &Vec<String>, content: &str) -> (r: Option<String>)
    ensures
        match r {
            Some(text) => first_block(texts_of(patterns@), content@) == Some(text@),
            None => first_block(texts_of(patterns@), content@) is None,
        },
{
    let ghost all = texts_of(patterns@);
    let mut i: usize = 0;
    assert(all.skip(0) =~= all);
    while i < patterns.len()
        invariant
            i <= patterns.len(),
            first_block(all.skip(i as int), content@) == first_block(all, content@),
        decreases patterns.len() - i,
    {
        assert(all.skip(i as int)[0] == patterns[i as int]@);
        assert(all.skip(i as int).drop_first() =~= all.skip(i + 1));
        match captures(patterns[i].as_str(), content) {
            Some(groups) => match group_text(&groups, 1) {
                Some(text) => {
                    return Some(text.clone());
                },
                None => {},
            },
            None => {},
        }
        i += 1;
    }
    None
}

/// The number that group `i` of a match spells.
fn group_number_exec(groups: &Vec<Option<String>>, i: usize) -> (r: Option<u64>)
    ensures
        r == group_number(groups_of(groups@), i as int),
{
    match group_text(groups, i) {
        Some(text) => parse_u64(text.as_str()),
        None => None,
    }
}

impl EvaluationParser {
    /// A parser with the patterns of this library.
    pub fn new() -> (parser: Self)
        ensures
            texts_of(parser.score_patterns@) == score_patterns(),
            texts_of(parser.strength_patterns@) == strength_patterns(),
            texts_of(parser.issue_patterns@) == issue_patterns(),
            texts_of(parser.token_patterns@) == token_patterns(),
            texts_of(parser.duration_patterns@) == duration_patterns(),
    {
        let scores: Vec<&'static str> = vec![
            "\\*\\*Score[:\\s]*(\\d+)/10\\*\\*",
            "Score[:\\s]*(\\d+)/10",
            "^(\\d+)/10",
            "(\\d+)/10",
            "[Rr]ating[:\\s]*(\\d+)\\s*out of 10",
        ];
        let strengths: Vec<&'static str> = vec![
            "(?i)\\*\\*strengths:\\*\\*\\s*\\n((?:\\d+\\.\\s*.+\\n?)+)",
            "(?i)\\*\\*strengths:\\*\\*\\s*\\n((?:[-*]\\s*.+\\n?)+)",
            "(?i)strengths:\\s*\\n((?:.+\\n?)+?)(?:\\n\\*\\*|\\n[A-Z]|$)",
        ];
        let issues: Vec<&'static str> = vec![
            "(?i)\\*\\*issues:\\*\\*\\s*\\n((?:\\d+\\.\\s*.+\\n?)+)",
            "(?i)\\*\\*issues:\\*\\*\\s*\\n((?:[-*]\\s*.+\\n?)+)",
            "(?i)issues:\\s*\\n((?:.+\\n?)+?)(?:\\n\\*\\*|\\n[A-Z]|$)",
        ];
        let tokens: Vec<&'static str> = vec![
            "Prompt Tokens:\\s*(\\d+)",
            "Completion Tokens:\\s*(\\d+)",
            "Input tokens:\\s*(\\d+)",
            "Output tokens:\\s*(\\d+)",
        ];
        let durations: Vec<&'static str> = vec![
            "Duration:\\s*(\\d+)s",
            "Duration:\\s*(\\d+)m\\s*(\\d+)s",
            "(\\d+)s\\s*(\\d+)ms",
            "\\*\\*Duration:\\*\\*\\s*(\\d+)s",
        ];
        assert(slices_view(scores@) =~= score_patterns());
        assert(slices_view(strengths@) =~= strength_patterns());
        assert(slices_view(issues@) =~= issue_patterns());
        assert(slices_view(tokens@) =~= token_patterns());
        assert(slices_view(durations@) =~= duration_patterns());
        EvaluationParser {
            score_patterns: owned(&scores),
            strength_patterns: owned(&strengths),
            issue_patterns: owned(&issues),
            token_patterns: owned(&tokens),
            duration_patterns: owned(&durations),
        }
    }

    /// The score out of 10 that the first pattern finds that finds one.
    #[verifier::loop_isolation(false)]
    pub fn extract_score(&self, content: &str) -> (r: Option<u8>)
        ensures
            r == first_score(texts_of(self.score_patterns@), content@),
    {
        let ghost all = texts_of(self.score_patterns@);
        let mut i: usize = 0;
        assert(all.skip(0) =~= all);
        while i < self.score_patterns.len()
            invariant
                i <= self.score_patterns.len(),
                first_score(all.skip(i as int), content@) == first_score(all, content@),
            decreases self.score_patterns.len() - i,
        {
            assert(all.skip(i as int)[0] == self.score_patterns[i as int]@);
            assert(all.skip(i as int).drop_first() =~= all.skip(i + 1));
            match captures(self.score_patterns[i].as_str(), content) {
                Some(groups) => match group_number_exec(&groups, 1) {
                    Some(n) => {
                        if n <= 10 {
                            return Some(n as u8);
                        }
                    },
                    None => {},
                },
                None => {},
            }
            i += 1;
        }
        None
    }

    /// The duration in seconds that the first pattern finds that finds one.
    #[verifier::loop_isolation(false)]
    pub fn extract_duration(&self, content: &str) -> (r: Option<u64>)
        ensures
            r == first_duration(texts_of(self.duration_patterns@), content@),
    {
        let ghost all = texts_of(self.duration_patterns@);
        let mut i: usize = 0;
        assert(all.skip(0) =~= all);
        while i < self.duration_patterns.len()
            invariant
                i <= self.duration_patterns.len(),
                first_duration(all.skip(i as int), content@) == first_duration(all, content@),
            decreases self.duration_patterns.len() - i,
        {
            assert(all.skip(i as int)[0] == self.duration_patterns[i as int]@);
            assert(all.skip(i as int).drop_first() =~= all.skip(i + 1));
            match captures(self.duration_patterns[i].as_str(), content) {
                Some(groups) => {
                    if groups.len() == 2 {
                        match group_number_exec(&groups, 1) {
                            Some(seconds) => {
                                return Some(seconds);
                            },
                            None => {},
                        }
                    } else if groups.len() == 3 {
                        match (group_number_exec(&groups, 1), group_number_exec(&groups, 2)) {
                            (Some(minutes), Some(seconds)) => {
                                let total: u128 = (minutes as u128) * 60 + (seconds as u128);
                                if total <= 0xffff_ffff_ffff_ffff {
                                    return Some(total as u64);
                                }
                            },
                            _ => {},
                        }
                    }
                },
                None => {},
            }
            i += 1;
        }
        None
    }

    /// The counts of prompt tokens and of completion tokens: for each kind
    /// the count of the last match that names it.
    #[verifier::loop_isolation(false)]
    pub fn extract_tokens(&self, content: &str) -> (r: (Option<u32>, Option<u32>))
        ensures
            r == tokens_after_patterns((None, None), texts_of(self.token_patterns@), content@),
    {
        let ghost all = texts_of(self.token_patterns@);
        let mut counts: (Option<u32>, Option<u32>) = (None, None);
        let mut i: usize = 0;
        assert(all.take(0) =~= Seq::<Seq<char>>::empty());
        while i < self.token_patterns.len()
            invariant
                i <= self.token_patterns.len(),
                counts == tokens_after_patterns((None, None), all.take(i as int), content@),
            decreases self.token_patterns.len() - i,
        {
            let pattern = self.token_patterns[i].as_str();
            assert(all.take(i + 1).drop_last() == all.take(i as int));
            assert(all.take(i + 1).last() == pattern@);
            let found = captures_all(pattern, content);
            let ghost before = counts;
            let ghost matches = matches_of(found@);
            let mut k: usize = 0;
            assert(matches.take(0) =~= Seq::<Groups>::empty());
            while k < found.len()
                invariant
                    k <= found.len(),
                    counts == tokens_after_matches(before, pattern@, matches.take(k as int)),
                decreases found.len() - k,
            {
                assert(matches.take(k + 1).drop_last() == matches.take(k as int));
                assert(matches.take(k + 1).last() == groups_of(found[k as int]@));
                match group_number_exec(&found[k], 1) {
                    Some(n) => {
                        if n <= 0xffff_ffff {
                            if text_contains(pattern, "Prompt") || text_contains(pattern, "Input") {
                                counts = (Some(n as u32), counts.1);
                            } else if text_contains(pattern, "Completion") || text_contains(
                                pattern,
                                "Output",
                            ) {
                                counts = (counts.0, Some(n as u32));
                            }
                        }
                    },
                    None => {},
                }
                k += 1;
            }
            assert(matches.take(k as int) == matches);
            i += 1;
        }
        assert(all.take(i as int) == all);
        counts
    }

    /// The items of a numbered or bulleted list.
    #[verifier::loop_isolation(false)]
    pub fn parse_list_items(&self, text: &str) -> (items: Vec<String>)
        ensures
            texts_of(items@) == list_items(text@),
    {
        let found = captures_all("(?m)^(?:\\d+\\.|\\*|-)\\s*(.+)$", text);
        let ghost matches = matches_of(found@);
        let mut items: Vec<String> = Vec::new();
        let mut k: usize = 0;
        assert(matches.take(0) =~= Seq::<Groups>::empty());
        assert(texts_of(items@) =~= Seq::<Seq<char>>::empty());
        while k < found.len()
            invariant
                k <= found.len(),
                texts_of(items@) == items_in(matches.take(k as int)),
            decreases found.len() - k,
        {
            assert(matches.take(k + 1).drop_last() == matches.take(k as int));
            assert(matches.take(k + 1).last() == groups_of(found[k as int]@));
            match group_text(&found[k], 1) {
                Some(part) => {
                    let item = part.as_str().trim();
                    if !item.is_empty() {
                        let ghost before = items@;
                        items.push(item.to_owned());
                        assert(texts_of(items@) =~= texts_of(before).push(item@));
                    }
                },
                None => {},
            }
            k += 1;
        }
        assert(matches.take(k as int) == matches);
        items
    }

    /// The lines that follow the heading of a section and hold one of the
    /// keywords.
    #[verifier::loop_isolation(false)]
    pub fn extract_by_keywords(
        &self,
        content: &str,
        section: &str,
        keywords: &Vec<&'static str>,
    ) -> (results: Vec<String>)
        ensures
            texts_of(results@) == keyword_lines(
                lines_in(content@),
                section@,
                slices_view(keywords@),
                false,
                0,
            ),
    {
        let lines = lines_of(content);
        let ghost all = texts_of(lines@);
        let ghost words = slices_view(keywords@);
        let ghost wanted = keyword_lines(all, section@, words, false, 0);
        let mut results: Vec<String> = Vec::new();
        let mut in_section = false;
        let mut since: u32 = 0;
        let mut i: usize = 0;
        assert(all.skip(0) =~= all);
        assert(texts_of(results@) =~= Seq::<Seq<char>>::empty());
        assert(Seq::<Seq<char>>::empty() + wanted =~= wanted);
        while i < lines.len()
            invariant
                i <= lines.len(),
                since <= 10,
                texts_of(results@) + keyword_lines(
                    all.skip(i as int),
                    section@,
                    words,
                    in_section,
                    since as nat,
                ) == wanted,
            decreases lines.len() - i,
        {
            let line = lines[i].as_str();
            let ghost rest = all.skip(i as int);
            assert(rest[0] == line@);
            assert(rest.drop_first() =~= all.skip(i + 1));
            let lower = line.to_lowercase();
            if text_contains(lower.as_str(), section) {
                in_section = true;
                since = 0;
            } else if in_section {
                if since + 1 > 10 {
                    assert(texts_of(results@) + Seq::<Seq<char>>::empty() =~= texts_of(results@));
                    return results;
                }
                since += 1;
                let ghost before = results@;
                if holds_any_exec(lower.as_str(), keywords) {
                    results.push(line.trim().to_owned());
                    assert(texts_of(results@) =~= texts_of(before) + seq![trimmed(line@)]);
                } else {
                    assert(texts_of(results@) =~= texts_of(before) + Seq::<Seq<char>>::empty());
                }
                if text_starts_with(line, "**") && text_ends_with(line, "**") {
                    return results;
                }
                assert(texts_of(results@) + keyword_lines(
                    all.skip(i + 1),
                    section@,
                    words,
                    true,
                    since as nat,
                ) =~= texts_of(before) + keyword_lines(
                    rest,
                    section@,
                    words,
                    true,
                    (since - 1) as nat,
                ));
            }
            i += 1;
        }
        assert(texts_of(results@) + Seq::<Seq<char>>::empty() =~= texts_of(results@));
        results
    }

    /// The strengths that the content lists.
    pub fn extract_strengths(&self, content: &str) -> (r: Vec<String>)
        ensures
            texts_of(r@) == findings(
                texts_of(self.strength_patterns@),
                content@,
                "strengths"@,
                strength_words(),
            ),
    {
        match first_block_exec(&self.strength_patterns, content) {
            Some(block) => self.parse_list_items(block.as_str()),
            None => {
                let words: Vec<&'static str> = vec![
                    "good",
                    "excellent",
                    "proper",
                    "well",
                    "effective",
                    "strong",
                    "robust",
                ];
                assert(slices_view(words@) =~= strength_words());
                self.extract_by_keywords(content, "strengths", &words)
            },
        }
    }

    /// The issues that the content lists.
    pub fn extract_issues(&self, content: &str) -> (r: Vec<String>)
        ensures
            texts_of(r@) == findings(
                texts_of(self.issue_patterns@),
                content@,
                "issues"@,
                issue_words(),
            ),
    {
        match first_block_exec(&self.issue_patterns, content) {
            Some(block) => self.parse_list_items(block.as_str()),
            None => {
                let words: Vec<&'static str> = vec![
                    "problem",
                    "issue",
                    "error",
                    "missing",
                    "poor",
                    "weak",
                    "bad",
                    "incorrect",
                ];
                assert(slices_view(words@) =~= issue_words());
                self.extract_by_keywords(content, "issues", &words)
            },
        }
    }

    /// The primary recommendation that the content gives.
    pub fn extract_recommendation(&self, content: &str) -> (r: Option<String>)
        ensures
            match r {
                Some(text) => recommendation_in(content@) == Some(text@),
                None => recommendation_in(content@) is None,
            },
    {
        let list: Vec<&'static str> = vec![
            "(?i)\\*\\*Primary Recommendation:\\*\\*\\s*(.+?)(?:\\n\\*\\*|\\n##|$)",
            "(?i)recommendation[:\\s]*(.+?)(?:\\n|$)",
        ];
        assert(slices_view(list@) =~= recommendation_patterns());
        let patterns = owned(&list);
        match first_block_exec(&patterns, content) {
            Some(text) => Some(text.as_str().trim().to_owned()),
            None => None,
        }
    }

    /// The status that the content tells.
    pub fn determine_status(&self, content: &str) -> (r: EvaluationStatus)
        ensures
            r == status_in(texts_of(self.score_patterns@), content@),
    {
        let lower = content.to_lowercase();
        if text_contains(lower.as_str(), "error") || text_contains(lower.as_str(), "failed") {
            EvaluationStatus::Failed
        } else if text_contains(lower.as_str(), "timeout") || text_contains(
            lower.as_str(),
            "timed out",
        ) {
            EvaluationStatus::Timeout
        } else if text_contains(lower.as_str(), "**status:** success") {
            EvaluationStatus::Success
        } else if self.extract_score(content).is_none() {
            EvaluationStatus::ParseError
        } else {
            EvaluationStatus::Success
        }
    }

    /// The size of a model as its name tells it.
    pub fn estimate_model_size(&self, model_name: &str) -> (r: String)
        ensures
            r@ == size_in(model_name@),
    {
        let lower = model_name.to_lowercase();
        if text_contains(lower.as_str(), "3b") {
            "3B".to_owned()
        } else if text_contains(lower.as_str(), "27b") {
            "27B".to_owned()
        } else if text_contains(lower.as_str(), "7b") {
            "7B".to_owned()
        } else if text_contains(lower.as_str(), "8b") {
            "8B".to_owned()
        } else if text_contains(lower.as_str(), "70b") {
            "70B".to_owned()
        } else if text_contains(lower.as_str(), "latest") {
            "Variable".to_owned()
        } else {
            "Unknown".to_owned()
        }
    }

    /// Reads the result of an evaluation. The metrics are stamped with the
    /// time of the call.
    pub fn parse_evaluation(&self, content: &str, model_name: &str) -> (metrics:
        EvaluationMetrics)
        ensures
            self.parsed(metrics, content@, model_name@, ""@),
    {
        self.parse_evaluation_with_prompt(content, model_name, "")
    }

    /// `metrics` is what this parser reads from `content` for the model,
    /// whatever its time stamp.
    pub open spec fn parsed(
        &self,
        metrics: EvaluationMetrics,
        content: Seq<char>,
        model_name: Seq<char>,
        prompt: Seq<char>,
    ) -> bool {
        &&& metrics.model_name@ == model_name
        &&& metrics.score == first_score(texts_of(self.score_patterns@), content)
        &&& metrics.duration_seconds == first_duration(texts_of(self.duration_patterns@), content)
        &&& (metrics.prompt_tokens, metrics.completion_tokens) == tokens_after_patterns(
            (None, None),
            texts_of(self.token_patterns@),
            content,
        )
        &&& metrics.model_size@ == size_in(model_name)
        &&& texts_of(metrics.strengths@) == findings(
            texts_of(self.strength_patterns@),
            content,
            "strengths"@,
            strength_words(),
        )
        &&& texts_of(metrics.issues@) == findings(
            texts_of(self.issue_patterns@),
            content,
            "issues"@,
            issue_words(),
        )
        &&& match metrics.primary_recommendation {
            Some(text) => recommendation_in(content) == Some(text@),
            None => recommendation_in(content) is None,
        }
        &&& metrics.status == status_in(texts_of(self.score_patterns@), content)
        &&& metrics.prompt_used@ == prompt
    }

    /// Reads the result of an evaluation that used the given prompt. The
    /// metrics are stamped with the time of the call.
    pub fn parse_evaluation_with_prompt(&self, content: &str, model_name: &str, prompt: &str) -> (metrics:
        EvaluationMetrics)
        ensures
            self.parsed(metrics, content@, model_name@, prompt@),
    {
        let (prompt_tokens, completion_tokens) = self.extract_tokens(content);
        EvaluationMetrics {
            model_name: model_name.to_owned(),
            score: self.extract_score(content),
            duration_seconds: self.extract_duration(content),
            prompt_tokens,
            completion_tokens,
            model_size: self.estimate_model_size(model_name),
            strengths: self.extract_strengths(content),
            issues: self.extract_issues(content),
            primary_recommendation: self.extract_recommendation(content),
            status: self.determine_status(content),
            timestamp: timestamp_now(),
            prompt_used: prompt.to_owned(),
        }
    }
}

impl EvaluationMetrics {
    /// Metrics without findings for a model and a prompt, stamped with the
    /// time of the call.
    pub fn new_with_prompt(model_name: String, prompt: String) -> (metrics: Self)
        ensures
            metrics.model_name == model_name,
            metrics.prompt_used == prompt,
            metrics.score is None,
            metrics.duration_seconds is None,
            metrics.prompt_tokens is None,
            metrics.completion_tokens is None,
            metrics.model_size@ == "Unknown"@,
            metrics.strengths@.len() == 0,
            metrics.issues@.len() == 0,
            metrics.primary_recommendation is None,
            metrics.status == EvaluationStatus::Success,
    {
        EvaluationMetrics {
            model_name,
            score: None,
            duration_seconds: None,
            prompt_tokens: None,
            completion_tokens: None,
            model_size: "Unknown".to_owned(),
            strengths: Vec::new(),
            issues: Vec::new(),
            primary_recommendation: None,
            status: EvaluationStatus::Success,
            timestamp: timestamp_now(),
            prompt_used: prompt,
        }
    }
}

} // verus!
