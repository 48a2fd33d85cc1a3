//! Summoning a stocked gVim: the role it takes, the files it opens, and the
//! hook commands run before and after.

use vstd::prelude::*;
use crate::gvim::{str_views, SendFileOptions, STOCKED_WINDOW_ROLE, SUMMONED_WINDOW_ROLE};
use crate::text::{
    decimal_string, lemma_parse_decimal_roundtrip, parse_u64_spec, u64_to_decimal, views,
};

verus! {

/// What a summon request asks of the summoned gVim.
pub struct SummonOptions {
    /// A shell command run after the files were sent.
    pub after: Option<String>,
    /// A shell command run before the window is brought up.
    pub before: Option<String>,
    pub change_directory: bool,
    pub envs: Vec<(String, String)>,
    pub expressions: Vec<String>,
    pub files: Vec<String>,
    pub keys: Vec<String>,
    /// The window role to set in place of the summoned role.
    pub role: Option<String>,
    /// A file that holds what the client read on its standard input.
    pub stdin_file: Option<String>,
    pub working_directory: String,
}

/// The role that the summoned window takes: the one asked for, else the
/// summoned role.
pub open spec fn summon_role_spec(role: Option<String>) -> Seq<char> {
    match role {
        Some(r) => r@,
        None => SUMMONED_WINDOW_ROLE@,
    }
}

/// The role to set on the summoned window.
pub fn summon_role(options: &SummonOptions) -> (r: &str)
    ensures
        r@ == summon_role_spec(options.role),
{
    match &options.role {
        Some(role) => role.as_str(),
        None => SUMMONED_WINDOW_ROLE,
    }
}

/// The files that the summoned gVim opens: those asked for, then the file
/// that holds the client's standard input.
pub open spec fn summon_files_spec(files: Seq<Seq<char>>, stdin_file: Option<String>) -> Seq<
    Seq<char>,
> {
    match stdin_file {
        Some(f) => files.push(f@),
        None => files,
    }
}

/// The files to send to the summoned gVim.
pub fn summon_files<'a>(options: &'a SummonOptions) -> (r: Vec<&'a str>)
    ensures
        str_views(r@) == summon_files_spec(views(options.files@), options.stdin_file),
{
    let mut res: Vec<&'a str> = Vec::new();
    let mut i: usize = 0;
    while i < options.files.len()
        invariant
            i <= options.files@.len(),
            res@.len() == i,
            forall|k: int| 0 <= k < i ==> (#[trigger] res@[k])@ == options.files@[k]@,
        decreases options.files@.len() - i,
    {
        res.push(options.files[i].as_str());
        i = i + 1;
    }
    match &options.stdin_file {
        Some(f) => {
            res.push(f.as_str());
        },
        None => {},
    }
    assert(str_views(res@) =~= summon_files_spec(views(options.files@), options.stdin_file));
    res
}

/// The summoned gVim opens the files asked for, in order, and after them,
/// last, the file that holds the client's standard input where there is one.
pub proof fn law_summon_files_order(files: Seq<Seq<char>>, stdin_file: Option<String>)
    ensures
        summon_files_spec(files, stdin_file).len() == files.len() + (if stdin_file is Some {
            1int
        } else {
            0int
        }),
        summon_files_spec(files, stdin_file).subrange(0, files.len() as int) == files,
        stdin_file matches Some(f) ==> summon_files_spec(files, stdin_file).last() == f@,
{
    assert(summon_files_spec(files, stdin_file).subrange(0, files.len() as int) =~= files);
}

/// The summoned window takes the role asked for; where none is asked, the
/// summoned role, which differs from the stocked role.
pub proof fn law_summon_role(role: Option<String>)
    ensures
        role matches Some(r) ==> summon_role_spec(role) == r@,
        role is None ==> summon_role_spec(role) == "PANTY"@,
        role is None ==> summon_role_spec(role) != STOCKED_WINDOW_ROLE@,
{
    reveal_strlit("PANTY");
    reveal_strlit("STOCKING");
    assert(STOCKED_WINDOW_ROLE@ == "STOCKING"@);
    assert(SUMMONED_WINDOW_ROLE@ == "PANTY"@);
    assert("PANTY"@[0] != "STOCKING"@[0]);
}

/// What is sent to the summoned gVim: the files, the environment and the
/// directory of the request, not in tabs.
pub fn summon_send_options<'a>(
    servername: &'a str,
    options: &'a SummonOptions,
    files: &'a [&'a str],
) -> (r: SendFileOptions<'a>)
    ensures
        r.change_directory == options.change_directory,
        r.envs@ == options.envs@,
        r.files@ == files@,
        r.servername@ == servername@,
        !r.tab,
        r.working_directory@ == options.working_directory@,
{
    SendFileOptions {
        change_directory: options.change_directory,
        envs: options.envs.as_slice(),
        files,
        servername,
        tab: false,
        working_directory: options.working_directory.as_str(),
    }
}

/// A command to run: the program, its arguments and the variables added to
/// its environment.
pub struct HookCommand {
    pub program: String,
    pub args: Vec<String>,
    pub envs: Vec<(String, String)>,
}

/// The command that runs a hook: `bash -c <command line>`, told the window
/// and the server name of the summoned gVim.
pub open spec fn hook_spec(command_line: Seq<char>, servername: Seq<char>, window: u64) -> (
    Seq<char>,
    Seq<Seq<char>>,
    Seq<(Seq<char>, Seq<char>)>,
) {
    (
        "bash"@,
        seq!["-c"@, command_line],
        seq![
            ("PANTY_WINDOWID"@, decimal_string(window as nat)),
            ("PANTY_SERVERNAME"@, servername),
        ],
    )
}

/// The command that `after` runs for a hook of a summon.
pub fn after(command_line: &str, servername: &str, window: u64) -> (r: HookCommand)
    ensures
        (r.program@, views(r.args@), r.envs@.map_values(
            |p: (String, String)| (p.0@, p.1@),
        )) == hook_spec(command_line@, servername@, window),
{
    let mut args: Vec<String> = Vec::new();
    args.push("-c".to_string());
    args.push(command_line.to_string());
    let mut envs: Vec<(String, String)> = Vec::new();
    envs.push(("PANTY_WINDOWID".to_string(), u64_to_decimal(window)));
    envs.push(("PANTY_SERVERNAME".to_string(), servername.to_string()));
    let r = HookCommand { program: "bash".to_string(), args, envs };
    assert(views(r.args@) =~= seq!["-c"@, command_line@]);
    assert(r.envs@.map_values(|p: (String, String)| (p.0@, p.1@)) =~= seq![
        ("PANTY_WINDOWID"@, decimal_string(window as nat)),
        ("PANTY_SERVERNAME"@, servername@),
    ]);
    r
}


/// A hook reads back the summoned window from `PANTY_WINDOWID` unchanged.
pub proof fn law_hook_window_id_roundtrip(command_line: Seq<char>, servername: Seq<char>, window: u64)
    ensures
        hook_spec(command_line, servername, window).2[0].0 == "PANTY_WINDOWID"@,
        parse_u64_spec(hook_spec(command_line, servername, window).2[0].1) == Some(window),
{
    lemma_parse_decimal_roundtrip(window);
}

} // verus!
