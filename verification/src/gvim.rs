//! The gVim side: the command lines that drive `gvim --remote*`, the reading
//! of what gVim prints back, and the choice of fresh server names.

use vstd::prelude::*;
use crate::namer::{is_generated_name, name};
use crate::text::{
    contains_string, decimal_string, is_digit, lemma_decimal_string_digits, lemma_parse_decimal_roundtrip, lines,
    lines_spec, parse_u64, parse_u64_spec, str_eq, trim, trim_end_spec, trim_spec,
    trim_start_spec, views,
};

verus! {

/// How the collector starts a stocked gVim.
#[derive(Clone)]
pub struct SpawnOptions {
    pub current_directory: Option<String>,
    pub command: String,
    pub unmap: bool,
    pub desktop: Option<i64>,
}

/// A running gVim: its X window, its server name and its title.
#[derive(Clone)]
pub struct Instance {
    pub window: u64,
    pub servername: String,
    pub title: String,
}

impl View for Instance {
    type V = (u64, Seq<char>, Seq<char>);

    open spec fn view(&self) -> (u64, Seq<char>, Seq<char>) {
        (self.window, self.servername@, self.title@)
    }
}

/// The role of a window that waits in the stock.
pub const STOCKED_WINDOW_ROLE: &'static str = "STOCKING";

/// The role of a window once it has been summoned.
pub const SUMMONED_WINDOW_ROLE: &'static str = "PANTY";

/// The X property in which a stocked gVim keeps its server name.
pub const SERVERNAME_PROPERTY: &'static str = "_PANTY_SERVERNAME";

/// What `send_files` sends: the files to open in the server `servername`
/// (in tabs where `tab`), the environment variables to set there, and
/// whether the server changes its directory to `working_directory`.
#[derive(Clone)]
pub struct SendFileOptions<'a> {
    pub change_directory: bool,
    pub envs: &'a [(String, String)],
    pub files: &'a [&'a str],
    pub servername: &'a str,
    pub tab: bool,
    pub working_directory: &'a str,
}

#[verifier::external_type_specification]
#[verifier::external_body]
pub struct ExRegexError(regex::Error);

/// The pattern of the characters that an ex command line needs escaped: a
/// class of `\`, `|` and `#`.
pub open spec fn command_pattern() -> Seq<char> {
    "[\\\\|#]"@
}

/// What replaces each of them: a backslash, then the match (`$0`).
pub open spec fn command_replacement() -> Seq<char> {
    "\\$0"@
}

/// The pattern of the character that a Vim string literal needs doubled.
pub open spec fn expression_pattern() -> Seq<char> {
    "'"@
}

/// What replaces it: two quotes.
pub open spec fn expression_replacement() -> Seq<char> {
    "''"@
}

/// A character that an ex command line needs escaped.
pub open spec fn is_command_special(c: char) -> bool {
    c == '\\' || c == '|' || c == '#'
}

/// `s` escaped for an ex command line: a backslash before every `\`, `|` and `#`.
pub open spec fn escape_command_spec(s: Seq<char>) -> Seq<char>
    decreases s.len(),
{
    if s.len() == 0 {
        Seq::empty()
    } else {
        escape_command_spec(s.drop_last()) + if is_command_special(s.last()) {
            seq!['\\', s.last()]
        } else {
            seq![s.last()]
        }
    }
}

/// `s` escaped for a single-quoted Vim string: every `'` doubled.
pub open spec fn escape_expression_spec(s: Seq<char>) -> Seq<char>
    decreases s.len(),
{
    if s.len() == 0 {
        Seq::empty()
    } else {
        escape_expression_spec(s.drop_last()) + if s.last() == '\'' {
            seq!['\'', '\'']
        } else {
            seq![s.last()]
        }
    }
}

/// Compiles `pattern` with `regex::Regex::new` and runs `Regex::replace_all`
/// on `text` with `replacement`, for the two patterns that the library uses.
/// The contract claims what the crate's documentation gives for them: both
/// patterns compile (a class of three literal characters; one literal
/// character), and every match is replaced, `$0` in the replacement standing
/// for the match and every other character of it standing for itself; the
/// text between matches is kept.
#[verifier::external_body]
fn regex_replace_all(pattern: &str, text: &str, replacement: &str) -> (r: Result<
    String,
    regex::Error,
>)
    requires
        (pattern@ == command_pattern() && replacement@ == command_replacement()) || (pattern@
            == expression_pattern() && replacement@ == expression_replacement()),
    ensures
        r is Ok,
        pattern@ == command_pattern() ==> r->Ok_0@ == escape_command_spec(text@),
        pattern@ == expression_pattern() ==> r->Ok_0@ == escape_expression_spec(text@),
{
    match regex::Regex::new(pattern) {
        Ok(re) => Ok(re.replace_all(text, replacement).into_owned()),
        Err(e) => Err(e),
    }
}

/// Escapes `\`, `|` and `#` with a backslash, for an ex command line.
pub fn escape_str_in_command(s: &str) -> (r: String)
    ensures
        r@ == escape_command_spec(s@),
{
    let r = regex_replace_all("[\\\\|#]", s, "\\$0");
    r.unwrap()
}

/// Doubles every `'`, for a single-quoted Vim string.
pub fn escape_str_in_expression(s: &str) -> (r: String)
    ensures
        r@ == escape_expression_spec(s@),
{
    let r = regex_replace_all("'", s, "''");
    r.unwrap()
}

/// Text without `\`, `|` or `#` is left as it is by the command escape.
pub proof fn law_escape_command_plain(s: Seq<char>)
    requires
        forall|i: int| 0 <= i < s.len() ==> !is_command_special(#[trigger] s[i]),
    ensures
        escape_command_spec(s) == s,
    decreases s.len(),
{
    if s.len() > 0 {
        law_escape_command_plain(s.drop_last());
        assert(s.drop_last() + seq![s.last()] =~= s);
    }
}

/// Text without `'` is left as it is by the expression escape.
pub proof fn law_escape_expression_plain(s: Seq<char>)
    requires
        forall|i: int| 0 <= i < s.len() ==> #[trigger] s[i] != '\'',
    ensures
        escape_expression_spec(s) == s,
    decreases s.len(),
{
    if s.len() > 0 {
        law_escape_expression_plain(s.drop_last());
        assert(s.drop_last() + seq![s.last()] =~= s);
    }
}

/// Escaping text followed by more text escapes each part in turn.
pub proof fn law_escape_command_concat(a: Seq<char>, b: Seq<char>)
    ensures
        escape_command_spec(a + b) == escape_command_spec(a) + escape_command_spec(b),
    decreases b.len(),
{
    if b.len() == 0 {
        assert(a + b =~= a);
        assert(escape_command_spec(a) + escape_command_spec(b) =~= escape_command_spec(a));
    } else {
        law_escape_command_concat(a, b.drop_last());
        assert((a + b).drop_last() =~= a + b.drop_last());
        assert((a + b).last() == b.last());
        let tail = if is_command_special(b.last()) {
            seq!['\\', b.last()]
        } else {
            seq![b.last()]
        };
        assert(escape_command_spec(a) + escape_command_spec(b.drop_last()) + tail
            =~= escape_command_spec(a) + (escape_command_spec(b.drop_last()) + tail));
    }
}

/// Each item preceded by the flag: `flag, items[0], flag, items[1], ...`.
pub open spec fn flag_pairs(flag: Seq<char>, items: Seq<Seq<char>>) -> Seq<Seq<char>>
    decreases items.len(),
{
    if items.len() == 0 {
        Seq::empty()
    } else {
        flag_pairs(flag, items.drop_last()) + seq![flag, items.last()]
    }
}

/// The arguments of `gvim` that send keys, then evaluate expressions, in the
/// server `servername`; none where there is nothing to send.
pub open spec fn remote_args_spec(
    servername: Seq<char>,
    keys: Seq<Seq<char>>,
    expressions: Seq<Seq<char>>,
) -> Option<Seq<Seq<char>>> {
    if keys.len() == 0 && expressions.len() == 0 {
        None
    } else {
        Some(
            seq!["--servername"@, servername] + flag_pairs("--remote-send"@, keys) + flag_pairs(
                "--remote-expr"@,
                expressions,
            ),
        )
    }
}

/// The flag pairs are twice as many as the items.
proof fn lemma_flag_pairs_len(flag: Seq<char>, items: Seq<Seq<char>>)
    ensures
        flag_pairs(flag, items).len() == 2 * items.len(),
    decreases items.len(),
{
    if items.len() > 0 {
        lemma_flag_pairs_len(flag, items.drop_last());
    }
}

/// The flag pairs hold the flag at each even place and the item `i` right
/// after it.
proof fn lemma_flag_pairs_at(flag: Seq<char>, items: Seq<Seq<char>>, i: int)
    requires
        0 <= i < items.len(),
    ensures
        flag_pairs(flag, items)[2 * i] == flag,
        flag_pairs(flag, items)[2 * i + 1] == items[i],
    decreases items.len(),
{
    let prev = items.drop_last();
    let pf = flag_pairs(flag, prev);
    lemma_flag_pairs_len(flag, prev);
    assert(flag_pairs(flag, items) == pf + seq![flag, items.last()]);
    if i < prev.len() {
        lemma_flag_pairs_at(flag, prev, i);
        assert(prev[i] == items[i]);
    }
}

/// The remote call sends nothing only where there are neither keys nor
/// expressions; otherwise it starts with `--servername` and the server's
/// name, and holds two words for each key and two for each expression.
pub proof fn law_remote_args_shape(
    servername: Seq<char>,
    keys: Seq<Seq<char>>,
    expressions: Seq<Seq<char>>,
)
    ensures
        remote_args_spec(servername, keys, expressions) is None <==> (keys.len() == 0
            && expressions.len() == 0),
        remote_args_spec(servername, keys, expressions) matches Some(a) ==> a.len() == 2 + 2
            * keys.len() + 2 * expressions.len() && a[0] == "--servername"@ && a[1] == servername,
{
    lemma_flag_pairs_len("--remote-send"@, keys);
    lemma_flag_pairs_len("--remote-expr"@, expressions);
}

/// Key `i` is sent: the remote call is made, and holds `--remote-send` and
/// then that key, after the server's name and the keys before it.
pub proof fn law_remote_args_sends_key(
    servername: Seq<char>,
    keys: Seq<Seq<char>>,
    expressions: Seq<Seq<char>>,
    i: int,
)
    requires
        0 <= i < keys.len(),
    ensures
        remote_args_spec(servername, keys, expressions) matches Some(a) && a[2 + 2 * i]
            == "--remote-send"@ && a[3 + 2 * i] == keys[i],
{
    let ks = flag_pairs("--remote-send"@, keys);
    let es = flag_pairs("--remote-expr"@, expressions);
    lemma_flag_pairs_len("--remote-send"@, keys);
    lemma_flag_pairs_at("--remote-send"@, keys, i);
    let a = seq!["--servername"@, servername] + ks + es;
    assert(remote_args_spec(servername, keys, expressions) == Some(a));
    assert(a[2 + 2 * i] == ks[2 * i]);
    assert(a[3 + 2 * i] == ks[2 * i + 1]);
}

/// Expression `j` is evaluated: the remote call is made, and holds
/// `--remote-expr` and then that expression, after all the keys and the
/// expressions before it.
pub proof fn law_remote_args_evaluates_expression(
    servername: Seq<char>,
    keys: Seq<Seq<char>>,
    expressions: Seq<Seq<char>>,
    j: int,
)
    requires
        0 <= j < expressions.len(),
    ensures
        remote_args_spec(servername, keys, expressions) matches Some(a) && a[2 + 2 * keys.len() + 2
            * j] == "--remote-expr"@ && a[3 + 2 * keys.len() + 2 * j] == expressions[j],
{
    let ks = flag_pairs("--remote-send"@, keys);
    let es = flag_pairs("--remote-expr"@, expressions);
    lemma_flag_pairs_len("--remote-send"@, keys);
    lemma_flag_pairs_len("--remote-expr"@, expressions);
    lemma_flag_pairs_at("--remote-expr"@, expressions, j);
    let a = seq!["--servername"@, servername] + ks + es;
    assert(remote_args_spec(servername, keys, expressions) == Some(a));
    assert(a[2 + 2 * keys.len() + 2 * j] == es[2 * j]);
    assert(a[3 + 2 * keys.len() + 2 * j] == es[2 * j + 1]);
}

/// Appends `flag, item` for each item.
fn push_flag_pairs(args: &mut Vec<String>, flag: &str, items: &[String])
    ensures
        views(final(args)@) == views(old(args)@) + flag_pairs(flag@, views(items@)),
{
    let mut i: usize = 0;
    let ghost start = views(args@);
    assert(views(items@).subrange(0, 0) =~= Seq::<Seq<char>>::empty());
    while i < items.len()
        invariant
            i <= items@.len(),
            views(args@) == start + flag_pairs(flag@, views(items@).subrange(0, i as int)),
        decreases items@.len() - i,
    {
        let ghost before = views(args@);
        args.push(flag.to_string());
        args.push(items[i].clone());
        proof {
            let sub = views(items@).subrange(0, i + 1);
            assert(sub.drop_last() =~= views(items@).subrange(0, i as int));
            assert(sub.last() == items@[i as int]@);
            assert(views(args@) =~= before + seq![flag@, items@[i as int]@]);
        }
        i = i + 1;
    }
    assert(views(items@).subrange(0, i as int) =~= views(items@));
}

/// The arguments of the `gvim` call that sends `keys` and then evaluates
/// `expressions` in the server `servername`; `None` where both are empty.
pub fn remote_args(servername: &str, keys: &[String], expressions: &[String]) -> (r: Option<
    Vec<String>,
>)
    ensures
        r matches Some(v) ==> remote_args_spec(servername@, views(keys@), views(expressions@))
            == Some(views(v@)),
        r is None ==> remote_args_spec(servername@, views(keys@), views(expressions@)) is None,
        r is None <==> (keys@.len() == 0 && expressions@.len() == 0),
{
    proof {
        law_remote_args_shape(servername@, views(keys@), views(expressions@));
    }
    if keys.len() == 0 && expressions.len() == 0 {
        return None;
    }
    let mut args: Vec<String> = Vec::new();
    args.push("--servername".to_string());
    args.push(servername.to_string());
    assert(views(args@) =~= seq!["--servername"@, servername@]);
    push_flag_pairs(&mut args, "--remote-send", keys);
    push_flag_pairs(&mut args, "--remote-expr", expressions);
    Some(args)
}

/// The arguments with which the collector starts a gVim for its stock: in the
/// foreground, printing its window id, with the stocked role, iconified,
/// under the server name `servername`.
pub open spec fn spawn_args_spec(servername: Seq<char>) -> Seq<Seq<char>> {
    seq![
        "--nofork"@,
        "--echo-wid"@,
        "--role=STOCKING"@,
        "-iconic"@,
        "--servername"@,
        servername,
    ]
}

/// The arguments of the gVim that `spawn` starts.
pub fn spawn_args(servername: &str) -> (r: Vec<String>)
    ensures
        views(r@) == spawn_args_spec(servername@),
{
    let mut role = "--role=".to_string();
    role.append(STOCKED_WINDOW_ROLE);
    proof {
        reveal_strlit("--role=");
        reveal_strlit("STOCKING");
        reveal_strlit("--role=STOCKING");
        assert(role@ =~= "--role=STOCKING"@);
    }
    let mut args: Vec<String> = Vec::new();
    args.push("--nofork".to_string());
    args.push("--echo-wid".to_string());
    args.push(role);
    args.push("-iconic".to_string());
    args.push("--servername".to_string());
    args.push(servername.to_string());
    assert(views(args@) =~= spawn_args_spec(servername@));
    args
}

/// The arguments of the `gvim` call that asks the server `servername` for its
/// window id.
pub open spec fn window_id_args_spec(servername: Seq<char>) -> Seq<Seq<char>> {
    seq!["--servername"@, servername, "--remote-expr"@, "v:windowid"@]
}

/// The arguments of the call that `fetch_window_id` makes.
pub fn window_id_args(servername: &str) -> (r: Vec<String>)
    ensures
        views(r@) == window_id_args_spec(servername@),
{
    let mut args: Vec<String> = Vec::new();
    args.push("--servername".to_string());
    args.push(servername.to_string());
    args.push("--remote-expr".to_string());
    args.push("v:windowid".to_string());
    assert(views(args@) =~= window_id_args_spec(servername@));
    args
}

/// The window id in what `gvim --remote-expr v:windowid` printed: the
/// output, trimmed, read as a decimal number.
pub fn parse_window_id(output: &str) -> (r: Option<u64>)
    ensures
        r == parse_u64_spec(trim_spec(output@)),
{
    parse_u64(trim(output))
}

/// The window id that a gVim prints for `v:windowid` (the number in decimal
/// and a newline) is read back unchanged.
pub proof fn law_window_id_roundtrip(window: u64)
    ensures
        parse_u64_spec(trim_spec(decimal_string(window as nat).push('\n'))) == Some(window),
{
    let d = decimal_string(window as nat);
    let t = d.push('\n');
    lemma_decimal_string_digits(window as nat);
    assert(is_digit(d[0]));
    assert(t[0] == d[0]);
    assert(trim_start_spec(t) == t);
    assert(t.drop_last() =~= d);
    assert(is_digit(d.last()));
    assert(trim_end_spec(d) == d);
    assert(trim_end_spec(t) == trim_end_spec(d));
    lemma_parse_decimal_roundtrip(window);
}

/// The server names that `gvim --serverlist` printed, one per line.
pub fn parse_server_list(output: &str) -> (r: Vec<String>)
    ensures
        views(r@) == lines_spec(output@),
{
    lines(output)
}


/// What happens to a freshly started gVim of the stock once its window
/// exists: whether to wait until it is viewable, and then the desktop to move
/// it to and whether to unmap it.
pub struct Placement {
    pub wait_for_visible: bool,
    pub desktop: Option<i64>,
    pub unmap: bool,
}

/// The placement that the spawn options ask for: the window is waited for
/// only where it is moved or unmapped.
pub fn placement(options: &SpawnOptions) -> (r: Placement)
    ensures
        r.wait_for_visible == (options.unmap || options.desktop is Some),
        r.desktop == options.desktop,
        r.unmap == options.unmap,
{
    Placement {
        wait_for_visible: options.unmap || options.desktop.is_some(),
        desktop: options.desktop,
        unmap: options.unmap,
    }
}

/// The count of looks at a window after one more look found it not yet
/// viewable; `None` where that count passes `max_tries`, so the wait gives up.
pub fn visibility_retry(tried: u64, max_tries: u64) -> (r: Option<u64>)
    ensures
        r == (if max_tries < tried + 1 {
            None
        } else {
            Some((tried + 1) as u64)
        }),
{
    if tried >= max_tries {
        None
    } else {
        Some(tried + 1)
    }
}

/// The character models of environment pairs.
pub open spec fn pair_views(envs: Seq<(String, String)>) -> Seq<(Seq<char>, Seq<char>)> {
    envs.map_values(|p: (String, String)| (p.0@, p.1@))
}

/// The character models of string slices.
pub open spec fn str_views(files: Seq<&str>) -> Seq<Seq<char>> {
    files.map_values(|f: &str| f@)
}

/// The Vim expression that sets the variable `key` to `value` in the server.
pub open spec fn setenv_call(key: Seq<char>, value: Seq<char>) -> Seq<char> {
    "+setenv('"@ + key + "', '"@ + escape_expression_spec(value) + "')"@
}

/// The `setenv` calls of the pairs, one after the other.
pub open spec fn setenv_calls(pairs: Seq<(Seq<char>, Seq<char>)>) -> Seq<char>
    decreases pairs.len(),
{
    if pairs.len() == 0 {
        Seq::empty()
    } else {
        setenv_calls(pairs.drop_last()) + setenv_call(pairs.last().0, pairs.last().1)
    }
}

/// The number of variables that one `--remote-expr` sets.
pub open spec fn env_chunk() -> nat {
    10
}

/// The arguments that set the variables: one `--remote-expr` with
/// `0+setenv(..)+setenv(..)...` for each run of ten pairs.
pub open spec fn env_args(envs: Seq<(Seq<char>, Seq<char>)>) -> Seq<Seq<char>>
    decreases envs.len(),
{
    if envs.len() == 0 {
        Seq::empty()
    } else {
        let n = if envs.len() < env_chunk() {
            envs.len() as int
        } else {
            env_chunk() as int
        };
        seq!["--remote-expr"@, "0"@ + setenv_calls(envs.take(n))] + env_args(envs.skip(n))
    }
}

/// The arguments of the `gvim` call that `send_files` makes (run in the
/// working directory); `None` where there is nothing to do.
pub open spec fn send_files_args_spec(
    change_directory: bool,
    envs: Seq<(Seq<char>, Seq<char>)>,
    files: Seq<Seq<char>>,
    servername: Seq<char>,
    tab: bool,
    working_directory: Seq<char>,
) -> Option<Seq<Seq<char>>> {
    if files.len() == 0 {
        if !change_directory {
            None
        } else {
            Some(
                seq![
                    "--servername"@,
                    servername,
                    "--remote-expr"@,
                    "execute('cd "@ + escape_expression_spec(working_directory) + "')"@,
                ] + env_args(envs),
            )
        }
    } else {
        Some(
            seq!["--servername"@, servername] + env_args(envs) + seq![
                if tab {
                    "--remote-tab"@
                } else {
                    "--remote"@
                },
            ] + (if change_directory {
                seq!["+cd "@ + escape_command_spec(working_directory)]
            } else {
                Seq::empty()
            }) + files,
        )
    }
}

/// Files are sent in the server, in order, at the end of the call, after
/// `--remote-tab` (or `--remote` where no tab is asked) and, where the
/// directory is to change, a `+cd` into the working directory; without files
/// the call only changes the directory, and with neither it is not made.
pub proof fn law_send_files_args(
    change_directory: bool,
    envs: Seq<(Seq<char>, Seq<char>)>,
    files: Seq<Seq<char>>,
    servername: Seq<char>,
    tab: bool,
    working_directory: Seq<char>,
)
    ensures
        send_files_args_spec(change_directory, envs, files, servername, tab, working_directory)
            is None <==> (files.len() == 0 && !change_directory),
        send_files_args_spec(change_directory, envs, files, servername, tab, working_directory)
            matches Some(a) ==> a.len() >= 2 && a[0] == "--servername"@ && a[1] == servername,
        files.len() > 0 ==> (send_files_args_spec(
            change_directory,
            envs,
            files,
            servername,
            tab,
            working_directory,
        ) matches Some(a) && a.len() >= files.len() + 1 + (if change_directory {
            1int
        } else {
            0int
        }) && a.subrange(a.len() - files.len(), a.len() as int) == files && a[a.len()
            - files.len() - 1 - (if change_directory {
            1int
        } else {
            0int
        })] == (if tab {
            "--remote-tab"@
        } else {
            "--remote"@
        }) && (change_directory ==> a[a.len() - files.len() - 1] == "+cd "@
            + escape_command_spec(working_directory))),
        files.len() == 0 && change_directory ==> (send_files_args_spec(
            change_directory,
            envs,
            files,
            servername,
            tab,
            working_directory,
        ) matches Some(a) && a[2] == "--remote-expr"@ && a[3] == "execute('cd "@
            + escape_expression_spec(working_directory) + "')"@),
{
    if let Some(a) = send_files_args_spec(
        change_directory,
        envs,
        files,
        servername,
        tab,
        working_directory,
    ) {
        if files.len() > 0 {
            let head = seq!["--servername"@, servername] + env_args(envs);
            let flag = seq![
                if tab {
                    "--remote-tab"@
                } else {
                    "--remote"@
                },
            ];
            let cd = if change_directory {
                seq!["+cd "@ + escape_command_spec(working_directory)]
            } else {
                Seq::empty()
            };
            assert(a == head + flag + cd + files);
            assert(a.subrange(a.len() - files.len(), a.len() as int) =~= files);
            assert(a[a.len() - files.len() - 1 - cd.len()] == flag[0]);
            if change_directory {
                assert(a[a.len() - files.len() - 1] == cd[0]);
            }
            assert(a[0] == head[0]);
            assert(a[1] == head[1]);
        }
    }
}

/// The `send_files_args_spec` of the options.
pub open spec fn send_files_args_of(options: SendFileOptions) -> Option<Seq<Seq<char>>> {
    send_files_args_spec(
        options.change_directory,
        pair_views(options.envs@),
        str_views(options.files@),
        options.servername@,
        options.tab,
        options.working_directory@,
    )
}

/// Builds `0+setenv(..)...` for the pairs from index `from` up to `to`.
fn setenv_expression(envs: &[(String, String)], from: usize, to: usize) -> (r: String)
    requires
        from < to <= envs@.len(),
    ensures
        r@ == "0"@ + setenv_calls(
            pair_views(envs@).subrange(from as int, to as int),
        ),
{
    let ghost pv = pair_views(envs@);
    let mut buf = "0".to_string();
    let mut j: usize = from;
    assert(pv.subrange(from as int, from as int) =~= Seq::<(Seq<char>, Seq<char>)>::empty());
    assert(buf@ =~= "0"@ + setenv_calls(pv.subrange(from as int, from as int)));
    while j < to
        invariant
            from <= j <= to,
            to <= envs@.len(),
            pv == pair_views(envs@),
            buf@ == "0"@ + setenv_calls(pv.subrange(from as int, j as int)),
        decreases to - j,
    {
        let value = escape_str_in_expression(envs[j].1.as_str());
        let ghost before = buf@;
        buf.append("+setenv('");
        buf.append(envs[j].0.as_str());
        buf.append("', '");
        buf.append(value.as_str());
        buf.append("')");
        proof {
            let sub = pv.subrange(from as int, j + 1);
            assert(sub.drop_last() =~= pv.subrange(from as int, j as int));
            assert(sub.last() == pv[j as int]);
            assert(pv[j as int] == (envs@[j as int].0@, envs@[j as int].1@));
            assert(buf@ =~= before + setenv_call(envs@[j as int].0@, envs@[j as int].1@));
        }
        j = j + 1;
    }
    buf
}

/// Appends the arguments that set the variables `envs`.
fn push_env_args(args: &mut Vec<String>, envs: &[(String, String)])
    ensures
        views(final(args)@) == views(old(args)@) + env_args(pair_views(envs@)),
{
    let ghost pv = pair_views(envs@);
    let ghost start = views(args@);
    let n = envs.len();
    let mut i: usize = 0;
    assert(pv.skip(0) =~= pv);
    while i < n
        invariant
            n == envs@.len(),
            pv == pair_views(envs@),
            pv.len() == n,
            i <= n,
            views(args@) + env_args(pv.skip(i as int)) == start + env_args(pv),
        decreases n - i,
    {
        let to = if n - i < 10 {
            n
        } else {
            i + 10
        };
        let expr = setenv_expression(envs, i, to);
        let ghost before = views(args@);
        args.push("--remote-expr".to_string());
        args.push(expr);
        proof {
            let rest = pv.skip(i as int);
            let k = (to - i) as int;
            assert(rest.take(k) =~= pv.subrange(i as int, to as int));
            assert(rest.skip(k) =~= pv.skip(to as int));
            assert(env_args(rest) == seq!["--remote-expr"@, "0"@ + setenv_calls(rest.take(k))]
                + env_args(rest.skip(k)));
            assert(views(args@) =~= before + seq!["--remote-expr"@, "0"@ + setenv_calls(
                rest.take(k),
            )]);
            assert(views(args@) + env_args(pv.skip(to as int)) =~= before + env_args(rest));
        }
        i = to;
    }
    assert(pv.skip(n as int).len() == 0);
    assert(views(args@) + env_args(pv.skip(n as int)) =~= views(args@));
}

/// The arguments of the `gvim` call that opens the files of `options` in its
/// server, to be run in `options.working_directory`; `None` where there
/// are no files and no directory change, so that nothing is to be run.
pub fn send_files_args(options: &SendFileOptions) -> (r: Option<Vec<String>>)
    ensures
        r matches Some(v) ==> send_files_args_of(*options) == Some(views(v@)),
        r is None ==> send_files_args_of(*options) is None,
{
    let mut args: Vec<String> = Vec::new();
    if options.files.len() == 0 {
        if !options.change_directory {
            return None;
        }
        let wd = escape_str_in_expression(options.working_directory);
        let mut cd = "execute('cd ".to_string();
        cd.append(wd.as_str());
        cd.append("')");
        args.push("--servername".to_string());
        args.push(options.servername.to_string());
        args.push("--remote-expr".to_string());
        args.push(cd);
        assert(views(args@) =~= seq![
            "--servername"@,
            options.servername@,
            "--remote-expr"@,
            "execute('cd "@ + escape_expression_spec(options.working_directory@) + "')"@,
        ]);
        push_env_args(&mut args, options.envs);
        Some(args)
    } else {
        args.push("--servername".to_string());
        args.push(options.servername.to_string());
        let ghost head = views(args@);
        assert(head =~= seq!["--servername"@, options.servername@]);
        push_env_args(&mut args, options.envs);
        let ghost with_envs = views(args@);
        if options.tab {
            args.push("--remote-tab".to_string());
        } else {
            args.push("--remote".to_string());
        }
        let ghost with_mode = views(args@);
        if options.change_directory {
            let wd = escape_str_in_command(options.working_directory);
            let mut cd = "+cd ".to_string();
            cd.append(wd.as_str());
            args.push(cd);
        }
        let ghost with_cd = views(args@);
        let mut i: usize = 0;
        while i < options.files.len()
            invariant
                i <= options.files@.len(),
                views(args@) == with_cd + str_views(options.files@).subrange(0, i as int),
            decreases options.files@.len() - i,
        {
            let ghost before = views(args@);
            args.push(options.files[i].to_string());
            assert(str_views(options.files@).subrange(0, i + 1) =~= str_views(
                options.files@,
            ).subrange(0, i as int).push(options.files@[i as int]@));
            assert(views(args@) =~= before.push(options.files@[i as int]@));
            i = i + 1;
        }
        assert(str_views(options.files@).subrange(0, i as int) =~= str_views(options.files@));
        proof {
            let mode = if options.tab {
                "--remote-tab"@
            } else {
                "--remote"@
            };
            assert(with_mode =~= with_envs + seq![mode]);
            let cdp = if options.change_directory {
                seq!["+cd "@ + escape_command_spec(options.working_directory@)]
            } else {
                Seq::<Seq<char>>::empty()
            };
            assert(with_cd =~= with_mode + cdp);
            assert(views(args@) =~= seq!["--servername"@, options.servername@] + env_args(
                pair_views(options.envs@),
            ) + seq![mode] + cdp + str_views(options.files@));
        }
        Some(args)
    }
}


/// The first index at or after `i` where `pat` occurs in `text`.
pub open spec fn find_from(text: Seq<char>, pat: Seq<char>, i: int) -> Option<int>
    decreases text.len() - i,
{
    if i < 0 || i + pat.len() > text.len() {
        None
    } else if text.subrange(i, i + pat.len()) == pat {
        Some(i)
    } else if i >= text.len() {
        None
    } else {
        find_from(text, pat, i + 1)
    }
}

proof fn lemma_find_from_bounds(text: Seq<char>, pat: Seq<char>, i: int)
    ensures
        find_from(text, pat, i) matches Some(p) ==> 0 <= p && p + pat.len() <= text.len(),
    decreases text.len() - i,
{
    if !(i < 0 || i + pat.len() > text.len()) && text.subrange(i, i + pat.len()) != pat && i
        < text.len() {
        lemma_find_from_bounds(text, pat, i + 1);
    }
}

/// The first index where `pat` occurs in `text`, as `str::find` gives it
/// (counted in characters).
pub open spec fn find_spec(text: Seq<char>, pat: Seq<char>) -> Option<int> {
    find_from(text, pat, 0)
}

/// Finds the first occurrence of `pat` in `text`.
pub fn find_str(text: &str, pat: &str) -> (r: Option<usize>)
    ensures
        r matches Some(i) ==> find_spec(text@, pat@) == Some(i as int),
        r is None ==> find_spec(text@, pat@) is None,
{
    let n = text.unicode_len();
    let m = pat.unicode_len();
    if m > n {
        return None;
    }
    let mut i: usize = 0;
    while i <= n - m
        invariant
            n == text@.len(),
            m == pat@.len(),
            m <= n,
            i <= n - m + 1,
            find_spec(text@, pat@) == find_from(text@, pat@, i as int),
        decreases n - i,
    {
        let mut j: usize = 0;
        let mut same = true;
        while j < m
            invariant
                n == text@.len(),
                m == pat@.len(),
                i + m <= n,
                j <= m,
                same == (forall|k: int| 0 <= k < j ==> text@[i + k] == pat@[k]),
            decreases m - j,
        {
            if text.get_char(i + j) != pat.get_char(j) {
                same = false;
            }
            j = j + 1;
        }
        if same {
            assert(text@.subrange(i as int, i + m) =~= pat@);
            return Some(i);
        }
        assert(text@.subrange(i as int, i + m) != pat@) by {
            let k = choose|k: int| 0 <= k < m && text@[i + k] != pat@[k];
            assert(text@.subrange(i as int, i + m)[k] == text@[i + k]);
        }
        i = i + 1;
    }
    assert(find_from(text@, pat@, i as int) is None);
    None
}

/// The marker before the window id in what `gvim --echo-wid` prints.
pub const WID_MARKER: &'static str = "WID: ";

/// The number of lines that `spawn` reads, at most, looking for the window id.
pub const MAX_WID_LINES: u32 = 300;

/// What the window-id search found in the text read so far: nothing yet; or
/// a marker, with the number after it where that reads as one.
pub open spec fn wid_in(text: Seq<char>) -> Option<Option<u64>> {
    match find_spec(text, WID_MARKER@) {
        None => None,
        Some(p) => Some(parse_u64_spec(trim_spec(text.subrange(p + 5, text.len() as int)))),
    }
}

/// The next thing to do while reading the output of a starting gVim.
pub enum WidStep {
    /// Read one more line and hand it over.
    ReadLine,
    /// The window id was found.
    Found(u64),
    /// The marker was found, and no number after it.
    Malformed,
    /// The output ended, or the lines allowed were read, without a marker.
    NotFound,
}

/// The search for the window id in what a starting gVim prints: the text
/// read so far and the number of lines read.
pub struct WidScan {
    text: String,
    lines: u32,
}

impl View for WidScan {
    type V = (Seq<char>, nat);

    closed spec fn view(&self) -> (Seq<char>, nat) {
        (self.text@, self.lines as nat)
    }
}

impl WidScan {
    /// A search that has read nothing.
    pub fn new() -> (r: WidScan)
        ensures
            r@ == (Seq::<char>::empty(), 0nat),
    {
        WidScan { text: String::new(), lines: 0 }
    }

    /// Takes the next line read (`None` at the end of the output or on a read
    /// error) and says what to do next.
    pub fn feed(&mut self, line: Option<String>) -> (r: WidStep)
        ensures
            old(self)@.1 >= MAX_WID_LINES ==> r is NotFound && final(self)@ == old(self)@,
            old(self)@.1 < MAX_WID_LINES ==> final(self)@.1 == old(self)@.1 + 1,
            old(self)@.1 < MAX_WID_LINES ==> match line {
                None => r is NotFound && final(self)@.0 == old(self)@.0,
                Some(l) => if l@.len() == 0 {
                    r is NotFound && final(self)@.0 == old(self)@.0
                } else {
                    &&& final(self)@.0 == old(self)@.0 + l@
                    &&& match wid_in(final(self)@.0) {
                        Some(Some(w)) => r == WidStep::Found(w),
                        Some(None) => r is Malformed,
                        None => if final(self)@.1 < MAX_WID_LINES {
                            r is ReadLine
                        } else {
                            r is NotFound
                        },
                    }
                },
            },
    {
        if self.lines >= MAX_WID_LINES {
            return WidStep::NotFound;
        }
        self.lines = self.lines + 1;
        match line {
            None => WidStep::NotFound,
            Some(l) => {
                if l.as_str().unicode_len() == 0 {
                    return WidStep::NotFound;
                }
                self.text.append(l.as_str());
                match find_str(self.text.as_str(), WID_MARKER) {
                    Some(p) => {
                        proof {
                            reveal_strlit("WID: ");
                            lemma_find_from_bounds(self.text@, WID_MARKER@, 0);
                        }
                        let n = self.text.as_str().unicode_len();
                        let rest = self.text.as_str().substring_char(p + 5, n);
                        match parse_u64(trim(rest)) {
                            Some(w) => WidStep::Found(w),
                            None => WidStep::Malformed,
                        }
                    },
                    None => {
                        if self.lines < MAX_WID_LINES {
                            WidStep::ReadLine
                        } else {
                            WidStep::NotFound
                        }
                    },
                }
            },
        }
    }
}

/// The window id that `gvim --echo-wid` prints on a line of its own
/// (`WID: <number>`) is found on the first line read.
pub proof fn law_echoed_window_id_found(window: u64)
    ensures
        wid_in(("WID: "@ + decimal_string(window as nat)).push('\n')) == Some(Some(window)),
{
    let text = ("WID: "@ + decimal_string(window as nat)).push('\n');
    reveal_strlit("WID: ");
    assert(text.subrange(0, 5) =~= WID_MARKER@);
    assert(find_spec(text, WID_MARKER@) == Some(0int));
    assert(text.subrange(5, text.len() as int) =~= decimal_string(window as nat).push('\n'));
    law_window_id_roundtrip(window);
}

/// The character models of instances.
pub open spec fn instance_views(v: Seq<Instance>) -> Seq<(u64, Seq<char>, Seq<char>)> {
    v.map_values(|i: Instance| i@)
}

/// What the X server tells of one top-level window: whether it is viewable,
/// its class, the server name that the collector wrote on it, and its title.
pub struct WindowProbe {
    pub window: u64,
    pub visible: bool,
    pub class: Option<String>,
    pub servername: Option<String>,
    pub title: Option<String>,
}

/// The instance that a window stands for, if it is a gVim of the collector
/// with the wanted visibility (window `0` is never one).
pub open spec fn window_instance(visibility: bool, p: WindowProbe) -> Option<
    (u64, Seq<char>, Seq<char>),
> {
    if p.window == 0 || p.visible != visibility {
        None
    } else {
        match (p.class, p.servername, p.title) {
            (Some(c), Some(s), Some(t)) => if c@ == "Gvim"@ {
                Some((p.window, s@, t@))
            } else {
                None
            },
            _ => None,
        }
    }
}

/// The instances that the windows stand for, in order.
pub open spec fn window_instances(visibility: bool, probes: Seq<WindowProbe>) -> Seq<
    (u64, Seq<char>, Seq<char>),
>
    decreases probes.len(),
{
    if probes.len() == 0 {
        Seq::empty()
    } else {
        let rest = window_instances(visibility, probes.drop_last());
        match window_instance(visibility, probes.last()) {
            Some(i) => rest.push(i),
            None => rest,
        }
    }
}

proof fn lemma_window_instances_from(visibility: bool, probes: Seq<WindowProbe>, k: int)
    requires
        0 <= k < window_instances(visibility, probes).len(),
    ensures
        exists|i: int|
            0 <= i < probes.len() && window_instance(visibility, #[trigger] probes[i]) == Some(
                window_instances(visibility, probes)[k],
            ),
    decreases probes.len(),
{
    let init = probes.drop_last();
    let rest = window_instances(visibility, init);
    let r = window_instances(visibility, probes);
    if k < rest.len() {
        assert(r[k] == rest[k]);
        lemma_window_instances_from(visibility, init, k);
        let i = choose|i: int|
            0 <= i < init.len() && window_instance(visibility, #[trigger] init[i]) == Some(rest[k]);
        assert(probes[i] == init[i]);
    } else {
        assert(window_instance(visibility, probes[probes.len() - 1]) == Some(r[k]));
    }
}

proof fn lemma_window_instances_keep(visibility: bool, probes: Seq<WindowProbe>, i: int)
    requires
        0 <= i < probes.len(),
        window_instance(visibility, probes[i]) is Some,
    ensures
        window_instances(visibility, probes).contains(window_instance(visibility, probes[i])->Some_0),
    decreases probes.len(),
{
    let init = probes.drop_last();
    let rest = window_instances(visibility, init);
    let r = window_instances(visibility, probes);
    let x = window_instance(visibility, probes[i])->Some_0;
    if i < init.len() {
        assert(init[i] == probes[i]);
        lemma_window_instances_keep(visibility, init, i);
        let k = choose|k: int| 0 <= k < rest.len() && rest[k] == x;
        assert(r[k] == rest[k]);
    } else {
        assert(r[r.len() - 1] == x);
    }
}

/// Each instance found is a window other than `0`, with the visibility asked
/// for, of class `Gvim`, with the collector's server name and a title.
pub proof fn law_window_instances_have_visibility(
    visibility: bool,
    probes: Seq<WindowProbe>,
    k: int,
)
    requires
        0 <= k < window_instances(visibility, probes).len(),
    ensures
        exists|i: int|
            0 <= i < probes.len() && (#[trigger] probes[i]).visible == visibility
                && probes[i].window != 0
                && probes[i].window == window_instances(visibility, probes)[k].0
                && probes[i].class is Some && probes[i].class->0@ == "Gvim"@
                && probes[i].servername is Some
                && probes[i].servername->0@ == window_instances(visibility, probes)[k].1
                && probes[i].title is Some
                && probes[i].title->0@ == window_instances(visibility, probes)[k].2,
{
    lemma_window_instances_from(visibility, probes, k);
    let i = choose|i: int|
        0 <= i < probes.len() && window_instance(visibility, #[trigger] probes[i]) == Some(
            window_instances(visibility, probes)[k],
        );
    assert(probes[i].visible == visibility);
}

/// Every window other than `0` with the visibility asked for, of class
/// `Gvim`, with the collector's server name and a title, is found.
pub proof fn law_window_instances_find_all(visibility: bool, probes: Seq<WindowProbe>, i: int)
    requires
        0 <= i < probes.len(),
        probes[i].visible == visibility,
        probes[i].window != 0,
        probes[i].class matches Some(c) && c@ == "Gvim"@,
        probes[i].servername is Some,
        probes[i].title is Some,
    ensures
        window_instances(visibility, probes).contains(
            (probes[i].window, probes[i].servername->0@, probes[i].title->0@),
        ),
{
    lemma_window_instances_keep(visibility, probes, i);
}

/// The gVim instances of the collector among the top-level windows: those
/// with the wanted visibility, of class `Gvim`, with a server name written
/// by the collector and a title.
pub fn find_instances(visibility: bool, probes: &[WindowProbe]) -> (r: Vec<Instance>)
    ensures
        instance_views(r@) == window_instances(visibility, probes@),
{
    let mut res: Vec<Instance> = Vec::new();
    let mut i: usize = 0;
    assert(probes@.subrange(0, 0) =~= Seq::<WindowProbe>::empty());
    while i < probes.len()
        invariant
            i <= probes@.len(),
            instance_views(res@) == window_instances(
                visibility,
                probes@.subrange(0, i as int),
            ),
        decreases probes@.len() - i,
    {
        let p = &probes[i];
        let ghost sub = probes@.subrange(0, i + 1);
        assert(sub.drop_last() =~= probes@.subrange(0, i as int));
        assert(sub.last() == probes@[i as int]);
        if p.window != 0 && p.visible == visibility {
            match (&p.class, &p.servername, &p.title) {
                (Some(c), Some(s), Some(t)) => {
                    proof {
                        reveal_strlit("Gvim");
                    }
                    if crate::text::str_eq(c.as_str(), "Gvim") {
                        let inst = Instance {
                            window: p.window,
                            servername: s.clone(),
                            title: t.clone(),
                        };
                        let ghost before = instance_views(res@);
                        res.push(inst);
                        assert(instance_views(res@) =~= before.push(inst@));
                    }
                },
                _ => {},
            }
        }
        i = i + 1;
    }
    assert(probes@.subrange(0, i as int) =~= probes@);
    res
}

/// What is known of one gVim server: its name, the window it answered with,
/// whether that window is viewable, whether the collector wrote its server
/// name on it, and its title.
pub struct ServerProbe {
    pub servername: String,
    pub window: Option<u64>,
    pub visible: bool,
    pub panty: bool,
    pub title: Option<String>,
}

/// The instance that a server stands for, if it told its window, the window
/// has the wanted visibility and a title.
pub open spec fn server_instance(visibility: bool, p: ServerProbe) -> Option<
    (u64, Seq<char>, Seq<char>),
> {
    match (p.window, p.title) {
        (Some(w), Some(t)) => if p.visible == visibility {
            Some((w, p.servername@, t@))
        } else {
            None
        },
        _ => None,
    }
}

/// The instances of the servers, in order.
pub open spec fn server_instances(visibility: bool, probes: Seq<ServerProbe>) -> Seq<
    (u64, Seq<char>, Seq<char>),
>
    decreases probes.len(),
{
    if probes.len() == 0 {
        Seq::empty()
    } else {
        let rest = server_instances(visibility, probes.drop_last());
        match server_instance(visibility, probes.last()) {
            Some(i) => rest.push(i),
            None => rest,
        }
    }
}

proof fn lemma_server_instances_from(visibility: bool, probes: Seq<ServerProbe>, k: int)
    requires
        0 <= k < server_instances(visibility, probes).len(),
    ensures
        exists|i: int|
            0 <= i < probes.len() && server_instance(visibility, #[trigger] probes[i]) == Some(
                server_instances(visibility, probes)[k],
            ),
    decreases probes.len(),
{
    let init = probes.drop_last();
    let rest = server_instances(visibility, init);
    let r = server_instances(visibility, probes);
    if k < rest.len() {
        assert(r[k] == rest[k]);
        lemma_server_instances_from(visibility, init, k);
        let i = choose|i: int|
            0 <= i < init.len() && server_instance(visibility, #[trigger] init[i]) == Some(rest[k]);
        assert(probes[i] == init[i]);
    } else {
        assert(server_instance(visibility, probes[probes.len() - 1]) == Some(r[k]));
    }
}

proof fn lemma_server_instances_keep(visibility: bool, probes: Seq<ServerProbe>, i: int)
    requires
        0 <= i < probes.len(),
        server_instance(visibility, probes[i]) is Some,
    ensures
        server_instances(visibility, probes).contains(server_instance(visibility, probes[i])->Some_0),
    decreases probes.len(),
{
    let init = probes.drop_last();
    let rest = server_instances(visibility, init);
    let r = server_instances(visibility, probes);
    let x = server_instance(visibility, probes[i])->Some_0;
    if i < init.len() {
        assert(init[i] == probes[i]);
        lemma_server_instances_keep(visibility, init, i);
        let k = choose|k: int| 0 <= k < rest.len() && rest[k] == x;
        assert(r[k] == rest[k]);
    } else {
        assert(r[r.len() - 1] == x);
    }
}

/// Each instance found comes from a server that told its window and title
/// and whose window has the visibility asked for.
pub proof fn law_server_instances_have_visibility(
    visibility: bool,
    probes: Seq<ServerProbe>,
    k: int,
)
    requires
        0 <= k < server_instances(visibility, probes).len(),
    ensures
        exists|i: int|
            0 <= i < probes.len() && (#[trigger] probes[i]).visible == visibility
                && probes[i].window == Some(server_instances(visibility, probes)[k].0)
                && probes[i].servername@ == server_instances(visibility, probes)[k].1
                && probes[i].title is Some && probes[i].title->0@ == server_instances(
                visibility,
                probes,
            )[k].2,
{
    lemma_server_instances_from(visibility, probes, k);
    let i = choose|i: int|
        0 <= i < probes.len() && server_instance(visibility, #[trigger] probes[i]) == Some(
            server_instances(visibility, probes)[k],
        );
    assert(probes[i].visible == visibility);
}

/// Every server that told its window and title, and whose window has the
/// visibility asked for, is found.
pub proof fn law_server_instances_find_all(visibility: bool, probes: Seq<ServerProbe>, i: int)
    requires
        0 <= i < probes.len(),
        probes[i].visible == visibility,
        probes[i].window is Some,
        probes[i].title is Some,
    ensures
        server_instances(visibility, probes).contains(
            (probes[i].window->0, probes[i].servername@, probes[i].title->0@),
        ),
{
    lemma_server_instances_keep(visibility, probes, i);
}

/// The gVim instances among all running servers, with or without the
/// collector: those that told their window, with the wanted visibility and a
/// title.
pub fn find_instances_without_panty(visibility: bool, probes: &[ServerProbe]) -> (r: Vec<
    Instance,
>)
    ensures
        instance_views(r@) == server_instances(visibility, probes@),
{
    let mut res: Vec<Instance> = Vec::new();
    let mut i: usize = 0;
    assert(probes@.subrange(0, 0) =~= Seq::<ServerProbe>::empty());
    while i < probes.len()
        invariant
            i <= probes@.len(),
            instance_views(res@) == server_instances(
                visibility,
                probes@.subrange(0, i as int),
            ),
        decreases probes@.len() - i,
    {
        let p = &probes[i];
        let ghost sub = probes@.subrange(0, i + 1);
        assert(sub.drop_last() =~= probes@.subrange(0, i as int));
        assert(sub.last() == probes@[i as int]);
        match (p.window, &p.title) {
            (Some(w), Some(t)) => {
                if p.visible == visibility {
                    let inst = Instance { window: w, servername: p.servername.clone(), title: t.clone() };
                    let ghost before = instance_views(res@);
                    res.push(inst);
                    assert(instance_views(res@) =~= before.push(inst@));
                }
            },
            _ => {},
        }
        i = i + 1;
    }
    assert(probes@.subrange(0, i as int) =~= probes@);
    res
}


/// The number of names that `new_servernames` gathers for a request of
/// `windows`: at least one, since a name is taken before the count is checked.
pub open spec fn name_target(windows: nat) -> nat {
    if windows == 0 {
        1
    } else {
        windows
    }
}

/// The names that `new_servernames` keeps from the candidates, in order: each
/// candidate that is neither taken by a running server nor kept before, until
/// the target is reached.
pub open spec fn fresh_names(
    existing: Seq<Seq<char>>,
    windows: nat,
    candidates: Seq<Seq<char>>,
) -> Seq<Seq<char>>
    decreases candidates.len(),
{
    if candidates.len() == 0 {
        Seq::empty()
    } else {
        let prev = fresh_names(existing, windows, candidates.drop_last());
        let c = candidates.last();
        if prev.len() >= name_target(windows) || existing.contains(c) || prev.contains(c) {
            prev
        } else {
            prev.push(c)
        }
    }
}

/// The names kept are distinct, none is taken by a running server, each is
/// one of the candidates, and there are no more than the target.
pub proof fn lemma_fresh_names(
    existing: Seq<Seq<char>>,
    windows: nat,
    candidates: Seq<Seq<char>>,
)
    ensures
        fresh_names(existing, windows, candidates).no_duplicates(),
        forall|i: int|
            0 <= i < fresh_names(existing, windows, candidates).len() ==> !existing.contains(
                #[trigger] fresh_names(existing, windows, candidates)[i],
            ) && candidates.contains(fresh_names(existing, windows, candidates)[i]),
        fresh_names(existing, windows, candidates).len() <= name_target(windows),
    decreases candidates.len(),
{
    if candidates.len() > 0 {
        let prev = fresh_names(existing, windows, candidates.drop_last());
        lemma_fresh_names(existing, windows, candidates.drop_last());
        let r = fresh_names(existing, windows, candidates);
        assert forall|i: int| 0 <= i < r.len() implies !existing.contains(#[trigger] r[i])
            && candidates.contains(r[i]) by {
            if i < prev.len() {
                assert(r[i] == prev[i]);
                let k = choose|k: int|
                    0 <= k < candidates.drop_last().len() && candidates.drop_last()[k] == prev[i];
                assert(candidates[k] == prev[i]);
            } else {
                assert(candidates[candidates.len() - 1] == r[i]);
            }
        }
    }
}


/// The candidate names that no running server holds.
pub open spec fn fresh_candidates(existing: Seq<Seq<char>>, candidates: Seq<Seq<char>>) -> Set<
    Seq<char>,
> {
    candidates.to_set().difference(existing.to_set())
}

/// The names kept are fresh candidates; and where fewer than the target are
/// kept, every fresh candidate is kept.
proof fn lemma_fresh_names_cover(existing: Seq<Seq<char>>, windows: nat, candidates: Seq<Seq<char>>)
    ensures
        fresh_names(existing, windows, candidates).to_set().subset_of(
            fresh_candidates(existing, candidates),
        ),
        fresh_names(existing, windows, candidates).len() < name_target(windows)
            ==> fresh_names(existing, windows, candidates).to_set() == fresh_candidates(
            existing,
            candidates,
        ),
    decreases candidates.len(),
{
    let f = fresh_names(existing, windows, candidates);
    if candidates.len() == 0 {
        assert(f.to_set() =~= Set::<Seq<char>>::empty());
        assert(fresh_candidates(existing, candidates) =~= Set::<Seq<char>>::empty());
    } else {
        let init = candidates.drop_last();
        let c = candidates.last();
        let prev = fresh_names(existing, windows, init);
        lemma_fresh_names_cover(existing, windows, init);
        assert(init.push(c) =~= candidates);
        init.lemma_push_to_set_commute(c);
        let s0 = fresh_candidates(existing, init);
        let s1 = fresh_candidates(existing, candidates);
        assert(candidates.to_set() =~= init.to_set().insert(c));
        if prev.len() >= name_target(windows) || existing.contains(c) || prev.contains(c) {
            assert(f == prev);
            assert(s0.subset_of(s1));
            if f.len() < name_target(windows) {
                assert(prev.to_set() == s0);
                if existing.contains(c) {
                    assert(existing.to_set().contains(c));
                } else {
                    assert(prev.to_set().contains(c));
                }
                assert(s1 =~= s0);
            }
        } else {
            assert(f == prev.push(c));
            prev.lemma_push_to_set_commute(c);
            assert(!existing.to_set().contains(c));
            assert(prev.to_set() == s0);
            assert(f.to_set() =~= s1);
        }
    }
}

/// How many names are kept: as many as asked for (one at least), unless the
/// candidates hold fewer fresh names than that, in which case all of them.
pub proof fn law_fresh_names_count(existing: Seq<Seq<char>>, windows: nat, candidates: Seq<Seq<char>>)
    ensures
        fresh_candidates(existing, candidates).finite(),
        windows > 0 ==> fresh_names(existing, windows, candidates).len() == if fresh_candidates(
            existing,
            candidates,
        ).len() < windows {
            fresh_candidates(existing, candidates).len()
        } else {
            windows
        },
        windows == 0 ==> fresh_names(existing, windows, candidates).len() == if fresh_candidates(
            existing,
            candidates,
        ).len() < 1 {
            fresh_candidates(existing, candidates).len()
        } else {
            1
        },
{
    let f = fresh_names(existing, windows, candidates);
    let fc = fresh_candidates(existing, candidates);
    lemma_fresh_names(existing, windows, candidates);
    lemma_fresh_names_cover(existing, windows, candidates);
    vstd::seq_lib::seq_to_set_is_finite(candidates);
    vstd::set_lib::lemma_len_subset(fc, candidates.to_set());
    f.unique_seq_to_set();
    vstd::set_lib::lemma_len_subset(f.to_set(), fc);
}

/// Considers one more candidate name, as `fresh_names` does.
fn consider_name(
    result: &mut Vec<String>,
    existing: &Vec<String>,
    windows: usize,
    candidate: String,
    Ghost(candidates): Ghost<Seq<Seq<char>>>,
)
    requires
        views(old(result)@) == fresh_names(views(existing@), windows as nat, candidates),
    ensures
        views(final(result)@) == fresh_names(
            views(existing@),
            windows as nat,
            candidates.push(candidate@),
        ),
{
    let ghost next = candidates.push(candidate@);
    assert(next.drop_last() =~= candidates);
    let target = if windows == 0 {
        1
    } else {
        windows
    };
    if result.len() >= target {
        return ;
    }
    if contains_string(existing.as_slice(), candidate.as_str()) || contains_string(
        result.as_slice(),
        candidate.as_str(),
    ) {
        return ;
    }
    let ghost before = views(result@);
    result.push(candidate);
    assert(views(result@) =~= before.push(candidate@));
}

/// Keeps, from the candidate names in order, those that no running server
/// holds and that were not kept before, until `windows` names are kept (one
/// at least).
pub fn pick_fresh_names(windows: usize, existing: &Vec<String>, candidates: &Vec<String>) -> (r:
    Vec<String>)
    ensures
        views(r@) == fresh_names(views(existing@), windows as nat, views(candidates@)),
        windows > 0 ==> r@.len() == if fresh_candidates(views(existing@), views(candidates@)).len()
            < windows {
            fresh_candidates(views(existing@), views(candidates@)).len()
        } else {
            windows as nat
        },
        windows == 0 ==> r@.len() == if fresh_candidates(views(existing@), views(candidates@)).len()
            < 1 {
            fresh_candidates(views(existing@), views(candidates@)).len()
        } else {
            1
        },
{
    proof {
        law_fresh_names_count(views(existing@), windows as nat, views(candidates@));
    }
    let mut result: Vec<String> = Vec::new();
    let mut i: usize = 0;
    assert(views(candidates@).subrange(0, 0) =~= Seq::<Seq<char>>::empty());
    while i < candidates.len()
        invariant
            i <= candidates@.len(),
            views(result@) == fresh_names(
                views(existing@),
                windows as nat,
                views(candidates@).subrange(0, i as int),
            ),
        decreases candidates@.len() - i,
    {
        let c = candidates[i].clone();
        assert(views(candidates@).subrange(0, i as int).push(c@) =~= views(candidates@).subrange(
            0,
            i + 1,
        ));
        consider_name(&mut result, existing, windows, c, Ghost(views(candidates@).subrange(0, i as int)));
        i = i + 1;
    }
    assert(views(candidates@).subrange(0, i as int) =~= views(candidates@));
    result
}

/// Draws random names until `windows` of them (one at least) are neither held
/// by a running server (`existing`) nor drawn twice. The names kept are those
/// that `fresh_names` keeps from the names drawn, and the drawing goes on until
/// the count is reached; since the draws are random, it stops, short of the
/// count, after `u64::MAX` draws.
pub fn new_servernames(windows: usize, existing: &Vec<String>) -> (r: Vec<String>)
    ensures
        exists|draws: Seq<Seq<char>>|
            {
                &&& forall|i: int| 0 <= i < draws.len() ==> is_generated_name(#[trigger] draws[i])
                &&& views(r@) == fresh_names(views(existing@), windows as nat, draws)
                &&& (r@.len() == name_target(windows as nat) || draws.len() == u64::MAX)
                &&& (windows > 0 ==> r@.len() == windows || draws.len() == u64::MAX)
                &&& (windows == 0 ==> r@.len() == 1 || draws.len() == u64::MAX)
                &&& (draws.len() > 0 ==> fresh_names(
                    views(existing@),
                    windows as nat,
                    draws.drop_last(),
                ).len() < name_target(windows as nat))
            },
        views(r@).no_duplicates(),
        forall|i: int| 0 <= i < r@.len() ==> !views(existing@).contains(#[trigger] views(r@)[i]),
        r@.len() <= name_target(windows as nat),
        windows > 0 ==> r@.len() <= windows,
        windows == 0 ==> r@.len() <= 1,
{
    let mut result: Vec<String> = Vec::new();
    let ghost mut draws: Seq<Seq<char>> = Seq::empty();
    let target = if windows == 0 {
        1
    } else {
        windows
    };
    let mut attempts: u64 = 0;
    while result.len() < target && attempts < u64::MAX
        invariant
            target as nat == name_target(windows as nat),
            draws.len() == attempts,
            forall|i: int| 0 <= i < draws.len() ==> is_generated_name(#[trigger] draws[i]),
            views(result@) == fresh_names(views(existing@), windows as nat, draws),
            draws.len() > 0 ==> fresh_names(views(existing@), windows as nat, draws.drop_last()).len()
                < name_target(windows as nat),
        decreases u64::MAX - attempts,
    {
        let candidate = name();
        let ghost d = candidate@;
        consider_name(&mut result, existing, windows, candidate, Ghost(draws));
        proof {
            let old_draws = draws;
            draws = draws.push(d);
            assert(draws.drop_last() =~= old_draws);
            assert forall|i: int| 0 <= i < draws.len() implies is_generated_name(
                #[trigger] draws[i],
            ) by {
                if i < old_draws.len() {
                    assert(draws[i] == old_draws[i]);
                }
            }
        }
        attempts = attempts + 1;
    }
    proof {
        lemma_fresh_names(views(existing@), windows as nat, draws);
        assert(views(result@).len() == result@.len());
    }
    result
}

} // verus!
