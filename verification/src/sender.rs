//! Sending files to a running gVim from the command line: which instance
//! takes them.

use vstd::prelude::*;
use crate::gvim::{Instance, SendFileOptions};
use crate::text::{
    decimal_string, lemma_decimal_string_digits, lemma_parse_decimal_roundtrip, parse_u64_spec,
    trim, trim_end_spec, trim_spec, trim_start_spec, u64_to_decimal,
};

verus! {

/// Which instance takes the files.
pub enum Target {
    /// No instance runs: nothing is sent.
    NoInstance,
    /// One instance runs: it takes the files.
    Single(String),
    /// Several run: the user is asked for one.
    Ask,
}

/// The target among the visible instances: none, the only one, or a question.
pub fn choose_target(instances: &[Instance]) -> (r: Target)
    ensures
        instances@.len() == 0 <==> r is NoInstance,
        instances@.len() == 1 <==> r is Single,
        r matches Target::Single(name) ==> name@ == instances@[0].servername@,
        instances@.len() > 1 <==> r is Ask,
{
    match instances.len() {
        0 => Target::NoInstance,
        1 => Target::Single(instances[0].servername.clone()),
        _ => Target::Ask,
    }
}

/// The line that offers the candidate at `index`: `[index] title`.
pub open spec fn prompt_line_spec(index: nat, title: Seq<char>) -> Seq<char> {
    "["@ + decimal_string(index) + "] "@ + title
}

/// The lines that offer the candidates, one per candidate, numbered from 0.
pub fn prompt_lines(candidates: &[Instance]) -> (r: Vec<String>)
    ensures
        r@.len() == candidates@.len(),
        forall|i: int|
            0 <= i < r@.len() ==> (#[trigger] r@[i])@ == prompt_line_spec(
                i as nat,
                candidates@[i].title@,
            ),
{
    let mut res: Vec<String> = Vec::new();
    let mut i: usize = 0;
    while i < candidates.len()
        invariant
            i <= candidates@.len(),
            res@.len() == i,
            forall|k: int|
                0 <= k < i ==> (#[trigger] res@[k])@ == prompt_line_spec(
                    k as nat,
                    candidates@[k].title@,
                ),
        decreases candidates@.len() - i,
    {
        let mut line = "[".to_string();
        line.append(u64_to_decimal(i as u64).as_str());
        line.append("] ");
        line.append(candidates[i].title.as_str());
        res.push(line);
        i = i + 1;
    }
    res
}

/// The text of the error that `str::parse::<usize>` gives on `s`, as its
/// `Display` writes it.
pub uninterp spec fn usize_parse_error_text(s: Seq<char>) -> Seq<char>;

/// `str::parse::<usize>` of std, the error turned into its `Display` text. The
/// contract claims what the documentation of `from_str_radix` gives: `s` is
/// read when it is an optional `+` and then only decimal digits whose value
/// fits in `usize`; and that the error text depends on `s` alone.
#[verifier::external_body]
fn parse_usize(s: &str) -> (r: Result<usize, String>)
    ensures
        r is Ok <==> (parse_u64_spec(s@) is Some && parse_u64_spec(s@)->Some_0 <= usize::MAX),
        r matches Ok(n) ==> parse_u64_spec(s@) == Some(n as u64),
        r matches Err(t) ==> t@ == usize_parse_error_text(s@),
{
    match s.parse::<usize>() {
        Ok(n) => Ok(n),
        Err(e) => Err(e.to_string()),
    }
}

/// What the answer to the prompt chooses: the answer, trimmed, read as an
/// index into the candidates gives that candidate's server name; an index past
/// the candidates gives `Index out of bounds`; an answer that is no index gives
/// the text of the parse error.
pub open spec fn answer_result(candidates: Seq<Instance>, answer: Seq<char>) -> Result<
    Seq<char>,
    Seq<char>,
> {
    let t = trim_spec(answer);
    match parse_u64_spec(t) {
        Some(n) => if n > usize::MAX {
            Err(usize_parse_error_text(t))
        } else if n < candidates.len() {
            Ok(candidates[n as int].servername@)
        } else {
            Err("Index out of bounds"@)
        },
        None => Err(usize_parse_error_text(t)),
    }
}

proof fn lemma_trim_decimal(n: nat)
    ensures
        trim_spec(decimal_string(n)) == decimal_string(n),
{
    let d = decimal_string(n);
    lemma_decimal_string_digits(n);
    assert(crate::text::is_digit(d[0]));
    assert(crate::text::is_digit(d[d.len() - 1]));
    assert(trim_start_spec(d) == d);
    assert(trim_end_spec(d) == d);
}

/// Typing the number that the prompt shows for a candidate picks that
/// candidate: the line for candidate `i` writes `i` in decimal right after
/// its opening `[`, and that number, as an answer, gives the candidate's
/// server name.
pub proof fn law_prompt_answer_picks(candidates: Seq<Instance>, i: u64)
    requires
        i < candidates.len(),
        candidates.len() <= usize::MAX,
    ensures
        prompt_line_spec(i as nat, candidates[i as int].title@)[0] == '[',
        prompt_line_spec(i as nat, candidates[i as int].title@).subrange(
            1,
            1 + decimal_string(i as nat).len() as int,
        ) == decimal_string(i as nat),
        answer_result(candidates, decimal_string(i as nat)) == Ok::<Seq<char>, Seq<char>>(
            candidates[i as int].servername@,
        ),
{
    reveal_strlit("[");
    reveal_strlit("] ");
    lemma_trim_decimal(i as nat);
    lemma_parse_decimal_roundtrip(i);
    let line = prompt_line_spec(i as nat, candidates[i as int].title@);
    assert(line.subrange(1, 1 + decimal_string(i as nat).len() as int) =~= decimal_string(i as nat));
}

/// A number past the last candidate picks none: the answer is
/// `Index out of bounds`.
pub proof fn law_prompt_answer_out_of_bounds(candidates: Seq<Instance>, n: u64)
    requires
        candidates.len() <= n <= usize::MAX,
    ensures
        answer_result(candidates, decimal_string(n as nat)) == Err::<Seq<char>, Seq<char>>(
            "Index out of bounds"@,
        ),
{
    lemma_trim_decimal(n as nat);
    lemma_parse_decimal_roundtrip(n);
}

/// Reads the answer to the prompt: the server name of the candidate whose
/// index the user typed, else the reason why the answer chooses none.
pub fn resolve_answer(candidates: &[Instance], answer: &str) -> (r: Result<String, String>)
    ensures
        match r {
            Ok(name) => answer_result(candidates@, answer@) == Ok::<Seq<char>, Seq<char>>(name@),
            Err(msg) => answer_result(candidates@, answer@) == Err::<Seq<char>, Seq<char>>(msg@),
        },
{
    match parse_usize(trim(answer)) {
        Ok(n) => {
            if n < candidates.len() {
                Ok(candidates[n].servername.clone())
            } else {
                Err("Index out of bounds".to_string())
            }
        },
        Err(text) => Err(text),
    }
}

/// What the prompt gives for the line read from the user: `Can't read` where
/// the line could not be read (`None`), else what the answer chooses.
pub fn number_prompt(candidates: &[Instance], line: Option<&str>) -> (r: Result<String, String>)
    ensures
        line is None ==> (r matches Err(msg) && msg@ == "Can't read"@),
        line matches Some(l) ==> match r {
            Ok(name) => answer_result(candidates@, l@) == Ok::<Seq<char>, Seq<char>>(name@),
            Err(msg) => answer_result(candidates@, l@) == Err::<Seq<char>, Seq<char>>(msg@),
        },
{
    match line {
        Some(l) => resolve_answer(candidates, l),
        None => Err("Can't read".to_string()),
    }
}

/// What is sent to the chosen server: the files, in tabs or not, with no
/// variables and no change of directory.
pub fn send_options<'a>(
    working_directory: &'a str,
    files: &'a [&'a str],
    tab: bool,
    servername: &'a str,
) -> (r: SendFileOptions<'a>)
    ensures
        !r.change_directory,
        r.envs@.len() == 0,
        r.files@ == files@,
        r.servername@ == servername@,
        r.tab == tab,
        r.working_directory@ == working_directory@,
{
    let no_envs: &'a [(String, String)] = &[];
    SendFileOptions {
        change_directory: false,
        envs: no_envs,
        files,
        servername,
        tab,
        working_directory,
    }
}

} // verus!
