use vstd::prelude::*;

verus! {

/// The character of the decimal digit `d` (`d < 10`).
pub open spec fn digit_char(d: nat) -> char {
    if d == 0 { '0' }
    else if d == 1 { '1' }
    else if d == 2 { '2' }
    else if d == 3 { '3' }
    else if d == 4 { '4' }
    else if d == 5 { '5' }
    else if d == 6 { '6' }
    else if d == 7 { '7' }
    else if d == 8 { '8' }
    else { '9' }
}

/// Decimal notation of `n`, without sign or leading zeros.
pub open spec fn decimal(n: nat) -> Seq<char>
    decreases n,
{
    if n < 10 {
        seq![digit_char(n)]
    } else {
        decimal(n / 10).push(digit_char(n % 10))
    }
}

fn digit_str(d: usize) -> (r: &'static str)
    requires
        d < 10,
    ensures
        r@ == seq![digit_char(d as nat)],
{
    if d == 0 {
        proof { reveal_strlit("0"); }
        "0"
    } else if d == 1 {
        proof { reveal_strlit("1"); }
        "1"
    } else if d == 2 {
        proof { reveal_strlit("2"); }
        "2"
    } else if d == 3 {
        proof { reveal_strlit("3"); }
        "3"
    } else if d == 4 {
        proof { reveal_strlit("4"); }
        "4"
    } else if d == 5 {
        proof { reveal_strlit("5"); }
        "5"
    } else if d == 6 {
        proof { reveal_strlit("6"); }
        "6"
    } else if d == 7 {
        proof { reveal_strlit("7"); }
        "7"
    } else if d == 8 {
        proof { reveal_strlit("8"); }
        "8"
    } else {
        proof { reveal_strlit("9"); }
        "9"
    }
}

/// Writes `n` in decimal.
pub fn decimal_string(n: usize) -> (r: String)
    ensures
        r@ == decimal(n as nat),
    decreases n,
{
    if n < 10 {
        String::from_str(digit_str(n))
    } else {
        let mut s = decimal_string(n / 10);
        s.append(digit_str(n % 10));
        s
    }
}


/// A decimal numeral consists of digits only.
pub open spec fn is_digit(c: char) -> bool {
    '0' <= c && c <= '9'
}

proof fn lemma_digit_char(d: nat)
    requires
        d < 10,
    ensures
        is_digit(digit_char(d)),
        forall|e: nat| e < 10 && digit_char(e) == digit_char(d) ==> e == d,
{
}

proof fn lemma_decimal_digits(n: nat)
    ensures
        decimal(n).len() >= 1,
        n < 10 ==> decimal(n).len() == 1,
        n >= 10 ==> decimal(n).len() >= 2,
        forall|i: int| 0 <= i < decimal(n).len() ==> is_digit(#[trigger] decimal(n)[i]),
    decreases n,
{
    if n < 10 {
        lemma_digit_char(n);
    } else {
        lemma_decimal_digits(n / 10);
        lemma_digit_char(n % 10);
        assert forall|i: int| 0 <= i < decimal(n).len() implies is_digit(#[trigger] decimal(n)[i]) by {
            if i < decimal(n / 10).len() {
                assert(decimal(n)[i] == decimal(n / 10)[i]);
            }
        }
    }
}

/// Distinct numbers have distinct decimal numerals.
pub proof fn lemma_decimal_injective(a: nat, b: nat)
    requires
        decimal(a) == decimal(b),
    ensures
        a == b,
    decreases a,
{
    lemma_decimal_digits(a);
    lemma_decimal_digits(b);
    if a < 10 && b < 10 {
        lemma_digit_char(a);
        assert(seq![digit_char(a)][0] == digit_char(a));
        assert(seq![digit_char(b)][0] == digit_char(b));
    } else if a >= 10 && b >= 10 {
        let da = decimal(a);
        assert(da.last() == digit_char(a % 10));
        assert(decimal(b).last() == digit_char(b % 10));
        lemma_digit_char(a % 10);
        assert(decimal(a / 10) == da.drop_last());
        assert(decimal(b / 10) == decimal(b).drop_last());
        lemma_decimal_injective(a / 10, b / 10);
        assert(a == 10 * (a / 10) + a % 10);
        assert(b == 10 * (b / 10) + b % 10);
    } else {
        assert(decimal(a).len() != decimal(b).len());
    }
}

/// `"Thread "`, the start of every line that speaks of a job.
pub open spec fn thread_word() -> Seq<char> {
    seq!['T', 'h', 'r', 'e', 'a', 'd', ' ']
}

/// `"Thread <id>"`: how every report names its job.
pub open spec fn job_name(id: nat) -> Seq<char> {
    thread_word() + decimal(id)
}

/// `"Thread <id>: "`, the tag in front of a job's result or error.
pub open spec fn job_tag(id: nat) -> Seq<char> {
    job_name(id) + seq![':', ' ']
}

/// `"Error: "`
pub open spec fn error_word() -> Seq<char> {
    seq!['E', 'r', 'r', 'o', 'r', ':', ' ']
}

/// `"Cancelled"`
pub open spec fn cancelled_word() -> Seq<char> {
    seq!['C', 'a', 'n', 'c', 'e', 'l', 'l', 'e', 'd']
}

/// `" starting execution"`
pub open spec fn starting_words() -> Seq<char> {
    seq![
        ' ', 's', 't', 'a', 'r', 't', 'i', 'n', 'g', ' ',
        'e', 'x', 'e', 'c', 'u', 't', 'i', 'o', 'n'
    ]
}

proof fn lemma_name_then_non_digit(a: nat, b: nat, ra: Seq<char>, rb: Seq<char>)
    requires
        ra.len() > 0,
        rb.len() > 0,
        !is_digit(ra[0]),
        !is_digit(rb[0]),
        job_name(a) + ra == job_name(b) + rb,
    ensures
        a == b,
{
    let s = job_name(a) + ra;
    let la = decimal(a).len() as int;
    let lb = decimal(b).len() as int;
    lemma_decimal_digits(a);
    lemma_decimal_digits(b);
    if la < lb {
        assert(s[7 + la] == ra[0]);
        assert(s[7 + la] == (job_name(b) + rb)[7 + la]);
        assert((job_name(b) + rb)[7 + la] == decimal(b)[la]);
        assert(false);
    } else if lb < la {
        assert(s[7 + lb] == (job_name(b) + rb)[7 + lb]);
        assert((job_name(b) + rb)[7 + lb] == rb[0]);
        assert(s[7 + lb] == decimal(a)[lb]);
        assert(false);
    } else {
        assert(decimal(a) =~= s.subrange(7, 7 + la));
        assert(decimal(b) =~= (job_name(b) + rb).subrange(7, 7 + lb));
        lemma_decimal_injective(a, b);
    }
}

/// Every line that reports on a job names exactly one job: two report
/// lines with the same text report on the same job id, whatever the
/// outcomes, and a report line never reads as another job's start line.
pub proof fn lemma_report_names_one_job(a: nat, b: nat, x: OutcomeView, y: OutcomeView)
    ensures
        report_text(a, x) == report_text(b, y) ==> a == b,
        report_text(a, x) != job_name(b) + starting_words(),
{
    let ra = seq![':', ' '] + match x {
        OutcomeView::Completed(v) => v,
        OutcomeView::Failed(e) => error_word() + e,
        OutcomeView::Cancelled => cancelled_word(),
    };
    let rb = seq![':', ' '] + match y {
        OutcomeView::Completed(v) => v,
        OutcomeView::Failed(e) => error_word() + e,
        OutcomeView::Cancelled => cancelled_word(),
    };
    assert(report_text(a, x) =~= job_name(a) + ra);
    assert(report_text(b, y) =~= job_name(b) + rb);
    assert(ra[0] == ':');
    assert(rb[0] == ':');
    assert(starting_words()[0] == ' ');
    if report_text(a, x) == report_text(b, y) {
        lemma_name_then_non_digit(a, b, ra, rb);
    }
    if report_text(a, x) == job_name(b) + starting_words() {
        lemma_name_then_non_digit(a, b, ra, starting_words());
        let k = job_name(a).len() as int;
        assert((job_name(a) + ra)[k] == ra[0]);
        assert((job_name(b) + starting_words())[k] == starting_words()[0]);
    }
}

/// The terminal state of a job, with what it produced.
pub enum Outcome {
    /// The executor returned a value, already rendered as text.
    Completed(String),
    /// The executor reported a failure, with its details.
    Failed(String),
    /// The job was interrupted by a cancellation sweep.
    Cancelled,
}

/// Which output stream a report line belongs on.
#[derive(PartialEq, Eq, Structural, Clone, Copy, Debug)]
pub enum Stream {
    Stdout,
    Stderr,
}

/// One line of output, with the stream it is written to.
pub struct ReportLine {
    pub stream: Stream,
    pub text: String,
}

/// The terminal state that a job reaches, given what the executor returned
/// and whether its cancellation signal had been raised. A job that
/// produced a value has completed, even when a sweep came just too late; a
/// failure after cancellation is the cancellation itself.
pub open spec fn outcome_spec(result: Result<Seq<char>, Seq<char>>, cancelled: bool) -> OutcomeView {
    match result {
        Ok(v) => OutcomeView::Completed(v),
        Err(e) => if cancelled { OutcomeView::Cancelled } else { OutcomeView::Failed(e) },
    }
}

/// The mathematical view of an [`Outcome`].
pub enum OutcomeView {
    Completed(Seq<char>),
    Failed(Seq<char>),
    Cancelled,
}

impl View for Outcome {
    type V = OutcomeView;

    open spec fn view(&self) -> OutcomeView {
        match self {
            Outcome::Completed(v) => OutcomeView::Completed(v@),
            Outcome::Failed(e) => OutcomeView::Failed(e@),
            Outcome::Cancelled => OutcomeView::Cancelled,
        }
    }
}

/// The stream on which the report of `o` appears.
pub open spec fn stream_of(o: OutcomeView) -> Stream {
    match o {
        OutcomeView::Completed(_) => Stream::Stdout,
        _ => Stream::Stderr,
    }
}

/// The text that reports outcome `o` of job `id`.
pub open spec fn report_text(id: nat, o: OutcomeView) -> Seq<char> {
    match o {
        OutcomeView::Completed(v) => job_tag(id) + v,
        OutcomeView::Failed(e) => job_tag(id) + error_word() + e,
        OutcomeView::Cancelled => job_tag(id) + cancelled_word(),
    }
}

/// Decides the terminal state of a job from the executor's result and the
/// job's cancellation signal.
pub fn outcome_of(result: Result<String, String>, cancelled: bool) -> (r: Outcome)
    ensures
        r@ == outcome_spec(
            match result {
                Ok(v) => Ok(v@),
                Err(e) => Err(e@),
            },
            cancelled,
        ),
{
    match result {
        Ok(v) => Outcome::Completed(v),
        Err(e) => if cancelled { Outcome::Cancelled } else { Outcome::Failed(e) },
    }
}

fn job_name_string(id: usize) -> (r: String)
    ensures
        r@ == job_name(id as nat),
{
    proof { reveal_strlit("Thread "); }
    let mut s = String::from_str("Thread ");
    let d = decimal_string(id);
    s.append(d.as_str());
    s
}

fn job_tag_string(id: usize) -> (r: String)
    ensures
        r@ == job_tag(id as nat),
{
    proof { reveal_strlit(": "); }
    let mut s = job_name_string(id);
    s.append(": ");
    s
}

/// The line printed when job `id` begins to run: `"Thread <id> starting execution"`.
pub fn starting_line(id: usize) -> (r: String)
    ensures
        r@ == job_name(id as nat) + starting_words(),
{
    proof { reveal_strlit(" starting execution"); }
    let mut s = job_name_string(id);
    s.append(" starting execution");
    s
}

/// The one line that reports the terminal state of job `id`:
/// `"Thread <id>: <value>"` on the output stream for a completed job,
/// `"Thread <id>: Error: <details>"` on the error stream for a failed one,
/// and `"Thread <id>: Cancelled"` on the error stream for a cancelled one.
pub fn report_line(id: usize, outcome: &Outcome) -> (r: ReportLine)
    ensures
        r.stream == stream_of(outcome@),
        r.text@ == report_text(id as nat, outcome@),
{
    let mut s = job_tag_string(id);
    match outcome {
        Outcome::Completed(v) => {
            s.append(v.as_str());
            ReportLine { stream: Stream::Stdout, text: s }
        },
        Outcome::Failed(e) => {
            proof { reveal_strlit("Error: "); }
            s.append("Error: ");
            s.append(e.as_str());
            ReportLine { stream: Stream::Stderr, text: s }
        },
        Outcome::Cancelled => {
            proof { reveal_strlit("Cancelled"); }
            s.append("Cancelled");
            ReportLine { stream: Stream::Stderr, text: s }
        },
    }
}

} // verus!
