use std::str::FromStr;

use panty::cli::{collector_renew_options, edit_next, edit_summon_spell, Command, EditNext, RELOAD_KEYS};
use panty::collector::RenewOptions;
use panty::gvim::{send_files_args, visibility_retry, Instance, SpawnOptions};
use panty::namer::{name, name_from_number};
use panty::lister::{Condition, ConditionSet};
use panty::sender::{choose_target, number_prompt, prompt_lines, resolve_answer, send_options, Target};
use panty::spell::{route, summon_reply, Order, Spell};
use panty::summoner::{after, summon_files, summon_role, summon_send_options, SummonOptions};

fn summon_options(role: Option<&str>, stdin_file: Option<&str>) -> SummonOptions {
    SummonOptions {
        after: None,
        before: None,
        change_directory: true,
        envs: vec![("HOME".to_string(), "/home/me".to_string())],
        expressions: vec![],
        files: vec!["/etc/fstab".to_string(), "/etc/whois.conf".to_string()],
        keys: vec![],
        role: role.map(|r| r.to_string()),
        stdin_file: stdin_file.map(|f| f.to_string()),
        working_directory: "/home/me".to_string(),
    }
}

#[test]
fn summoned_window_takes_the_asked_role_or_panty() {
    assert_eq!(summon_role(&summon_options(None, None)), "PANTY");
    assert_eq!(summon_role(&summon_options(Some("editor"), None)), "editor");
}

#[test]
fn summon_opens_the_files_then_stdin() {
    let o = summon_options(None, Some("/tmp/stdin"));
    assert_eq!(summon_files(&o), vec!["/etc/fstab", "/etc/whois.conf", "/tmp/stdin"]);
    let o = summon_options(None, None);
    assert_eq!(summon_files(&o), vec!["/etc/fstab", "/etc/whois.conf"]);
}

#[test]
fn summon_sends_the_files_of_the_request() {
    let o = summon_options(None, None);
    let files = summon_files(&o);
    let so = summon_send_options("PANTY-1", &o, &files);
    assert_eq!(
        send_files_args(&so).unwrap(),
        vec![
            "--servername", "PANTY-1", "--remote-expr", "0+setenv('HOME', '/home/me')",
            "--remote", "+cd /home/me", "/etc/fstab", "/etc/whois.conf",
        ]
    );
}

#[test]
fn hooks_run_in_bash_with_window_and_server() {
    let hook = after("echo hi", "PANTY-1", 4194311);
    assert_eq!(hook.program, "bash");
    assert_eq!(hook.args, vec!["-c".to_string(), "echo hi".to_string()]);
    assert_eq!(
        hook.envs,
        vec![
            ("PANTY_WINDOWID".to_string(), "4194311".to_string()),
            ("PANTY_SERVERNAME".to_string(), "PANTY-1".to_string()),
        ]
    );
}

#[test]
fn summon_spell_gives_its_options() {
    let spell = edit_summon_spell(true, vec!["a".to_string()], Some("/tmp/in".to_string()), "/w".to_string());
    let (o, nofork) = spell.into_summon().unwrap();
    assert!(!nofork);
    assert!(o.change_directory);
    assert_eq!(o.files, vec!["a".to_string()]);
    assert_eq!(o.stdin_file, Some("/tmp/in".to_string()));
    assert_eq!(o.working_directory, "/w");
    assert!(o.after.is_none() && o.before.is_none() && o.role.is_none());
    assert!(o.envs.is_empty() && o.keys.is_empty() && o.expressions.is_empty());
    assert!(Spell::Renew.into_summon().is_none());
    assert!(Spell::Clean.into_summon().is_none());
}

#[test]
fn summon_reply_is_the_name_and_a_newline() {
    assert_eq!(summon_reply("PANTY-1"), "PANTY-1\n");
}

#[test]
fn names_are_made_from_numbers() {
    assert_eq!(name_from_number(42), "PANTY-42");
    assert_eq!(name_from_number(0), "PANTY-0");
    assert!(name().starts_with("PANTY-"));
}

fn instance(window: u64, name: &str, title: &str) -> Instance {
    Instance { window, servername: name.to_string(), title: title.to_string() }
}

#[test]
fn target_depends_on_the_number_of_instances() {
    assert!(matches!(choose_target(&[]), Target::NoInstance));
    match choose_target(&[instance(1, "A", "a")]) {
        Target::Single(name) => assert_eq!(name, "A"),
        _ => panic!("expected one target"),
    }
    assert!(matches!(choose_target(&[instance(1, "A", "a"), instance(2, "B", "b")]), Target::Ask));
}

#[test]
fn prompt_offers_numbered_titles() {
    let c = [instance(1, "A", "a.txt"), instance(2, "B", "b.txt")];
    assert_eq!(prompt_lines(&c), vec!["[0] a.txt".to_string(), "[1] b.txt".to_string()]);
}

#[test]
fn answer_picks_by_index() {
    let c = [instance(1, "A", "a.txt"), instance(2, "B", "b.txt")];
    assert_eq!(resolve_answer(&c, " 1\n"), Ok("B".to_string()));
    assert_eq!(resolve_answer(&c, "0"), Ok("A".to_string()));
    assert_eq!(resolve_answer(&c, "2"), Err("Index out of bounds".to_string()));
    assert_eq!(resolve_answer(&c, "b"), Err("b".parse::<usize>().unwrap_err().to_string()));
    assert_eq!(resolve_answer(&c, ""), Err("".parse::<usize>().unwrap_err().to_string()));
}

#[test]
fn answer_errors_carry_the_parse_error_text() {
    let c = [instance(1, "A", "a.txt")];
    assert_eq!(resolve_answer(&c, "x\n"), Err("invalid digit found in string".to_string()));
    assert_eq!(resolve_answer(&c, " \n"), Err("cannot parse integer from empty string".to_string()));
    assert_eq!(resolve_answer(&c, "99999999999999999999999"), Err("number too large to fit in target type".to_string()));
    assert_eq!(resolve_answer(&c, "+0"), Ok("A".to_string()));
}

#[test]
fn number_prompt_reads_the_line() {
    let c = [instance(1, "A", "a.txt"), instance(2, "B", "b.txt")];
    assert_eq!(number_prompt(&c, Some("1\n")), Ok("B".to_string()));
    assert_eq!(number_prompt(&c, Some("7\n")), Err("Index out of bounds".to_string()));
    assert_eq!(number_prompt(&c, None), Err("Can't read".to_string()));
}

#[test]
fn visibility_retry_counts_up_to_the_limit() {
    assert_eq!(visibility_retry(0, 100), Some(1));
    assert_eq!(visibility_retry(99, 100), Some(100));
    assert_eq!(visibility_retry(100, 100), None);
    assert_eq!(visibility_retry(0, 0), None);
}

fn spawn_options_for_route() -> SpawnOptions {
    SpawnOptions { current_directory: None, command: "gvim".to_string(), unmap: true, desktop: Some(3) }
}

#[test]
fn route_renew_restarts_with_collector_settings() {
    match route(Spell::Renew, 4, spawn_options_for_route()) {
        Order::Renew(RenewOptions::Restart { max_stocks, spawn_options }) => {
            assert_eq!(max_stocks, 4);
            assert_eq!(spawn_options.command, "gvim");
            assert!(spawn_options.unmap);
            assert_eq!(spawn_options.desktop, Some(3));
        }
        _ => panic!("not a restart"),
    }
}

#[test]
fn route_clean_and_broadcast() {
    assert!(matches!(route(Spell::Clean, 1, spawn_options_for_route()), Order::Clean));
    let mut conditions = ConditionSet::new();
    conditions.insert(Condition::Visible(false));
    let spell = Spell::Broadcast { conditions, keys: vec!["k".to_string()], expressions: vec![] };
    match route(spell, 1, spawn_options_for_route()) {
        Order::Broadcast { conditions, keys, expressions } => {
            assert!(conditions.contains(Condition::Visible(false)));
            assert_eq!(conditions.len(), 1);
            assert_eq!(keys, vec!["k".to_string()]);
            assert!(expressions.is_empty());
        }
        _ => panic!("not a broadcast"),
    }
}

#[test]
fn route_summon_keeps_options_and_nofork() {
    let spell = Spell::Summon {
        after: None,
        before: Some("echo".to_string()),
        change_directory: false,
        envs: vec![],
        expressions: vec![],
        files: vec!["f".to_string()],
        keys: vec![],
        nofork: true,
        role: None,
        stdin_file: None,
        working_directory: "/w".to_string(),
    };
    match route(spell, 1, spawn_options_for_route()) {
        Order::Summon(options, nofork) => {
            assert!(nofork);
            assert_eq!(options.before, Some("echo".to_string()));
            assert_eq!(options.files, vec!["f".to_string()]);
            assert_eq!(options.working_directory, "/w");
        }
        _ => panic!("not a summon"),
    }
}

#[test]
fn send_options_open_files_without_cd() {
    let files = ["x.txt"];
    let so = send_options("/w", &files, true, "A");
    assert_eq!(send_files_args(&so).unwrap(), vec!["--servername", "A", "--remote-tab", "x.txt"]);
}

#[test]
fn command_names_and_abbreviations() {
    let cases = [
        ("summon", Command::summon), ("s", Command::summon),
        ("collector", Command::collector), ("c", Command::collector),
        ("renew", Command::renew), ("r", Command::renew),
        ("edit", Command::edit), ("e", Command::edit),
        ("tabedit", Command::tabEdit), ("tedit", Command::tabEdit), ("t", Command::tabEdit),
        ("clean", Command::clean), ("broadcast", Command::broadcast),
    ];
    for (name, command) in cases {
        assert_eq!(Command::from_name(name), Ok(command));
        assert_eq!(Command::from_str(name), Ok(command));
    }
    assert_eq!(Command::from_name("list"), Err(()));
    assert_eq!(format!("command {:?}", Command::tabEdit), "command tabEdit");
}

#[test]
fn collector_renews_by_keys_or_by_restart() {
    let so = SpawnOptions { current_directory: None, command: "gvim".to_string(), unmap: true, desktop: None };
    match collector_renew_options(5, so.clone(), vec![], false) {
        RenewOptions::Restart { max_stocks, spawn_options } => {
            assert_eq!(max_stocks, 5);
            assert_eq!(spawn_options.command, "gvim");
        }
        _ => panic!("expected a restart"),
    }
    match collector_renew_options(5, so.clone(), vec!["x".to_string()], true) {
        RenewOptions::Reload { keys } => assert_eq!(keys, vec!["x".to_string(), RELOAD_KEYS.to_string()]),
        _ => panic!("expected a reload"),
    }
    match collector_renew_options(5, so, vec![], true) {
        RenewOptions::Reload { keys } => assert_eq!(keys, vec![RELOAD_KEYS.to_string()]),
        _ => panic!("expected a reload"),
    }
}

#[test]
fn summon_envs_pass_all_then_the_requested_ones() {
    let all = vec![("A".to_string(), "1".to_string())];
    let requested = vec![
        ("B".to_string(), Some("2".to_string())),
        ("C".to_string(), None),
        ("D".to_string(), Some("4".to_string())),
    ];
    assert_eq!(
        panty::cli::summon_envs(Some(all), requested.clone()),
        vec![
            ("A".to_string(), "1".to_string()),
            ("B".to_string(), "2".to_string()),
            ("D".to_string(), "4".to_string()),
        ]
    );
    assert_eq!(
        panty::cli::summon_envs(None, requested),
        vec![("B".to_string(), "2".to_string()), ("D".to_string(), "4".to_string())]
    );
    assert!(panty::cli::summon_envs(None, vec![]).is_empty());
}

#[test]
fn broadcast_conditions_default_to_none() {
    assert_eq!(panty::cli::broadcast_conditions(None).ok().unwrap().len(), 0);
    assert_eq!(panty::cli::broadcast_conditions(Some("v,s")).ok().unwrap().len(), 2);
    assert_eq!(
        panty::cli::broadcast_conditions(Some("q")).err().unwrap(),
        "Invalid condition name: q"
    );
}

#[test]
fn placement_waits_only_to_move_or_unmap() {
    let mut so = SpawnOptions { current_directory: None, command: "gvim".to_string(), unmap: false, desktop: None };
    let p = panty::gvim::placement(&so);
    assert!(!p.wait_for_visible && !p.unmap && p.desktop.is_none());
    so.desktop = Some(2);
    let p = panty::gvim::placement(&so);
    assert!(p.wait_for_visible && p.desktop == Some(2) && !p.unmap);
    so.desktop = None;
    so.unmap = true;
    let p = panty::gvim::placement(&so);
    assert!(p.wait_for_visible && p.unmap);
}

#[test]
fn hook_reads_back_the_window() {
    let hook = after("true", "S", 123456789);
    assert_eq!(panty::text::parse_u64(&hook.envs[0].1), Some(123456789));
}

#[test]
fn edit_falls_back_to_a_summon_only_with_the_collector() {
    match edit_next(Some("GVIM".to_string()), true, false, vec![], None, "/w".to_string()) {
        EditNext::Sent(name) => assert_eq!(name, "GVIM"),
        _ => panic!("expected the server that took the files"),
    }
    match edit_next(None, true, true, vec!["f".to_string()], None, "/w".to_string()) {
        EditNext::Summon(spell) => {
            let (o, nofork) = spell.into_summon().unwrap();
            assert!(!nofork && o.change_directory);
            assert_eq!(o.files, vec!["f".to_string()]);
            assert_eq!(o.working_directory, "/w");
        }
        _ => panic!("expected a summon"),
    }
    assert!(matches!(edit_next(None, false, true, vec![], None, "/w".to_string()), EditNext::Nothing));
}
