//! The sub-commands of the `panty` program and the requests they build.

use vstd::prelude::*;
use crate::collector::RenewOptions;
use crate::gvim::SpawnOptions;
use crate::lister::{parse_condition, parse_condition_spec, Condition, ConditionSet};
use crate::spell::Spell;
use crate::text::{str_eq, views};

verus! {

/// A sub-command of the program.
#[allow(non_camel_case_types)]
#[derive(PartialEq, Eq, Structural, Clone, Copy, Debug)]
pub enum Command {
    summon,
    collector,
    renew,
    edit,
    tabEdit,
    clean,
    broadcast,
}

/// The sub-command that a name or its abbreviation stands for.
pub open spec fn command_of_name(src: Seq<char>) -> Option<Command> {
    if src == "summon"@ || src == "s"@ {
        Some(Command::summon)
    } else if src == "collector"@ || src == "c"@ {
        Some(Command::collector)
    } else if src == "renew"@ || src == "r"@ {
        Some(Command::renew)
    } else if src == "edit"@ || src == "e"@ {
        Some(Command::edit)
    } else if src == "tabedit"@ || src == "tedit"@ || src == "t"@ {
        Some(Command::tabEdit)
    } else if src == "clean"@ {
        Some(Command::clean)
    } else if src == "broadcast"@ {
        Some(Command::broadcast)
    } else {
        None
    }
}

impl Command {
    /// Reads a sub-command name; `Err(())` for an unknown one.
    pub fn from_name(src: &str) -> (r: Result<Command, ()>)
        ensures
            match command_of_name(src@) {
                Some(c) => r == Ok::<Command, ()>(c),
                None => r is Err,
            },
    {
        proof {
            reveal_strlit("summon");
            reveal_strlit("s");
            reveal_strlit("collector");
            reveal_strlit("c");
            reveal_strlit("renew");
            reveal_strlit("r");
            reveal_strlit("edit");
            reveal_strlit("e");
            reveal_strlit("tabedit");
            reveal_strlit("tedit");
            reveal_strlit("t");
            reveal_strlit("clean");
            reveal_strlit("broadcast");
        }
        if str_eq(src, "summon") || str_eq(src, "s") {
            Ok(Command::summon)
        } else if str_eq(src, "collector") || str_eq(src, "c") {
            Ok(Command::collector)
        } else if str_eq(src, "renew") || str_eq(src, "r") {
            Ok(Command::renew)
        } else if str_eq(src, "edit") || str_eq(src, "e") {
            Ok(Command::edit)
        } else if str_eq(src, "tabedit") || str_eq(src, "tedit") || str_eq(src, "t") {
            Ok(Command::tabEdit)
        } else if str_eq(src, "clean") {
            Ok(Command::clean)
        } else if str_eq(src, "broadcast") {
            Ok(Command::broadcast)
        } else {
            Err(())
        }
    }
}

impl std::str::FromStr for Command {
    type Err = ();

    fn from_str(src: &str) -> (r: Result<Command, ()>)
        ensures
            match command_of_name(src@) {
                Some(c) => r == Ok::<Command, ()>(c),
                None => r is Err,
            },
    {
        Command::from_name(src)
    }
}

/// The keys that make a gVim read its vimrc again.
pub const RELOAD_KEYS: &'static str = "<C-\\><C-n>:<C-u>source $MYVIMRC<CR>";

/// How the collector renews its stock: by sending keys where some are given
/// (the reload keys added last when `reload`), else by restarting.
pub fn collector_renew_options(
    max_stocks: usize,
    spawn_options: SpawnOptions,
    keys: Vec<String>,
    reload: bool,
) -> (r: RenewOptions)
    ensures
        (keys@.len() == 0 && !reload) ==> r == (RenewOptions::Restart {
            max_stocks,
            spawn_options,
        }),
        (keys@.len() > 0 || reload) ==> (r matches RenewOptions::Reload { keys: k } && views(k@)
            == (if reload {
            views(keys@).push(RELOAD_KEYS@)
        } else {
            views(keys@)
        })),
{
    let mut keys = keys;
    if reload {
        let ghost before = views(keys@);
        keys.push(RELOAD_KEYS.to_string());
        assert(views(keys@) =~= before.push(RELOAD_KEYS@));
    }
    if keys.len() == 0 {
        RenewOptions::Restart { max_stocks, spawn_options }
    } else {
        RenewOptions::Reload { keys }
    }
}

/// The summon request that `edit` falls back to where no gVim runs: the
/// files, the standard input file and the directory, nothing else.
pub fn edit_summon_spell(
    change_directory: bool,
    files: Vec<String>,
    stdin_file: Option<String>,
    working_directory: String,
) -> (r: Spell)
    ensures
        is_edit_summon(r, change_directory, files, stdin_file, working_directory),
{
    Spell::Summon {
        after: None,
        before: None,
        change_directory,
        envs: Vec::new(),
        expressions: Vec::new(),
        files,
        keys: Vec::new(),
        nofork: false,
        role: None,
        stdin_file,
        working_directory,
    }
}

/// `spell` is the summon request of `edit`: the files, the standard input
/// file and the directory, no hooks, variables, keys, expressions or role,
/// and no waiting.
pub open spec fn is_edit_summon(
    spell: Spell,
    change_directory: bool,
    files: Vec<String>,
    stdin_file: Option<String>,
    working_directory: String,
) -> bool {
    match spell {
        Spell::Summon {
            after: a,
            before: b,
            change_directory: cd,
            envs: e,
            expressions: x,
            files: f,
            keys: k,
            nofork: n,
            role: ro,
            stdin_file: sf,
            working_directory: wd,
        } => a is None && b is None && cd == change_directory && e@.len() == 0 && x@.len() == 0
            && f == files && k@.len() == 0 && !n && ro is None && sf == stdin_file && wd
            == working_directory,
        _ => false,
    }
}

/// What `edit` does once it tried to send the files to a visible gVim.
pub enum EditNext {
    /// The files went to this server.
    Sent(String),
    /// Nothing took them: ask the collector to summon a gVim for them.
    Summon(Spell),
    /// Nothing took them and the collector is not used.
    Nothing,
}

/// The step of `edit` after the attempt to send: the server that took the
/// files; else, where the collector is used, the summon request for them;
/// else nothing.
pub fn edit_next(
    sent: Option<String>,
    use_panty: bool,
    change_directory: bool,
    files: Vec<String>,
    stdin_file: Option<String>,
    working_directory: String,
) -> (r: EditNext)
    ensures
        sent matches Some(name) ==> r == EditNext::Sent(name),
        (sent is None && use_panty) ==> (r matches EditNext::Summon(spell) && is_edit_summon(
            spell,
            change_directory,
            files,
            stdin_file,
            working_directory,
        )),
        (sent is None && !use_panty) ==> r is Nothing,
{
    match sent {
        Some(name) => EditNext::Sent(name),
        None => {
            if use_panty {
                EditNext::Summon(
                    edit_summon_spell(change_directory, files, stdin_file, working_directory),
                )
            } else {
                EditNext::Nothing
            }
        },
    }
}

/// The variables that a summon passes: every variable where all are asked
/// for, then each requested one that is set.
pub open spec fn summon_envs_spec(
    all_vars: Option<Seq<(String, String)>>,
    requested: Seq<(String, Option<String>)>,
) -> Seq<(String, String)>
    decreases requested.len(),
{
    if requested.len() == 0 {
        match all_vars {
            Some(v) => v,
            None => Seq::empty(),
        }
    } else {
        let prev = summon_envs_spec(all_vars, requested.drop_last());
        match requested.last().1 {
            Some(v) => prev.push((requested.last().0, v)),
            None => prev,
        }
    }
}

/// The variables that every variable asked for gives.
pub open spec fn all_or_none(all_vars: Option<Seq<(String, String)>>) -> Seq<(String, String)> {
    match all_vars {
        Some(v) => v,
        None => Seq::empty(),
    }
}

proof fn lemma_summon_envs_prefix(
    all_vars: Option<Seq<(String, String)>>,
    requested: Seq<(String, Option<String>)>,
)
    ensures
        summon_envs_spec(all_vars, requested).len() >= all_or_none(all_vars).len(),
        summon_envs_spec(all_vars, requested).subrange(0, all_or_none(all_vars).len() as int)
            == all_or_none(all_vars),
    decreases requested.len(),
{
    if requested.len() > 0 {
        let prev = summon_envs_spec(all_vars, requested.drop_last());
        lemma_summon_envs_prefix(all_vars, requested.drop_last());
        let n = all_or_none(all_vars).len() as int;
        assert(summon_envs_spec(all_vars, requested).subrange(0, n) =~= prev.subrange(0, n));
    } else {
        assert(summon_envs_spec(all_vars, requested).subrange(
            0,
            all_or_none(all_vars).len() as int,
        ) =~= all_or_none(all_vars));
    }
}

proof fn lemma_summon_envs_from(
    all_vars: Option<Seq<(String, String)>>,
    requested: Seq<(String, Option<String>)>,
    k: int,
)
    requires
        all_or_none(all_vars).len() <= k < summon_envs_spec(all_vars, requested).len(),
    ensures
        exists|i: int|
            0 <= i < requested.len() && (#[trigger] requested[i]).0 == summon_envs_spec(
                all_vars,
                requested,
            )[k].0 && requested[i].1 == Some(summon_envs_spec(all_vars, requested)[k].1),
    decreases requested.len(),
{
    let init = requested.drop_last();
    let prev = summon_envs_spec(all_vars, init);
    let r = summon_envs_spec(all_vars, requested);
    if k < prev.len() {
        assert(r[k] == prev[k]);
        lemma_summon_envs_from(all_vars, init, k);
        let i = choose|i: int|
            0 <= i < init.len() && (#[trigger] init[i]).0 == prev[k].0 && init[i].1 == Some(
                prev[k].1,
            );
        assert(requested[i] == init[i]);
    } else {
        assert(requested[requested.len() - 1].0 == r[k].0);
    }
}

proof fn lemma_summon_envs_keep(
    all_vars: Option<Seq<(String, String)>>,
    requested: Seq<(String, Option<String>)>,
    i: int,
)
    requires
        0 <= i < requested.len(),
        requested[i].1 is Some,
    ensures
        summon_envs_spec(all_vars, requested).contains((requested[i].0, requested[i].1->0)),
    decreases requested.len(),
{
    let init = requested.drop_last();
    let prev = summon_envs_spec(all_vars, init);
    let r = summon_envs_spec(all_vars, requested);
    let x = (requested[i].0, requested[i].1->0);
    if i < init.len() {
        assert(init[i] == requested[i]);
        lemma_summon_envs_keep(all_vars, init, i);
        let k = choose|k: int| 0 <= k < prev.len() && prev[k] == x;
        assert(r[k] == prev[k]);
    } else {
        assert(r[r.len() - 1] == x);
    }
}

/// A summon passes every variable first where all are asked for; then each
/// requested variable that is set, with its value; and nothing else: every
/// other variable passed is a requested one with the value it is set to.
pub proof fn law_summon_envs(
    all_vars: Option<Seq<(String, String)>>,
    requested: Seq<(String, Option<String>)>,
    i: int,
    k: int,
)
    ensures
        summon_envs_spec(all_vars, requested).subrange(0, all_or_none(all_vars).len() as int)
            == all_or_none(all_vars),
        all_vars is None ==> summon_envs_spec(all_vars, requested).len() <= requested.len(),
        (0 <= i < requested.len() && requested[i].1 is Some) ==> summon_envs_spec(
            all_vars,
            requested,
        ).contains((requested[i].0, requested[i].1->0)),
        all_or_none(all_vars).len() <= k < summon_envs_spec(all_vars, requested).len()
            ==> exists|j: int|
            0 <= j < requested.len() && (#[trigger] requested[j]).0 == summon_envs_spec(
                all_vars,
                requested,
            )[k].0 && requested[j].1 == Some(summon_envs_spec(all_vars, requested)[k].1),
{
    lemma_summon_envs_prefix(all_vars, requested);
    lemma_summon_envs_len(all_vars, requested);
    if 0 <= i < requested.len() && requested[i].1 is Some {
        lemma_summon_envs_keep(all_vars, requested, i);
    }
    if all_or_none(all_vars).len() <= k < summon_envs_spec(all_vars, requested).len() {
        lemma_summon_envs_from(all_vars, requested, k);
    }
}

proof fn lemma_summon_envs_len(
    all_vars: Option<Seq<(String, String)>>,
    requested: Seq<(String, Option<String>)>,
)
    ensures
        summon_envs_spec(all_vars, requested).len() <= all_or_none(all_vars).len()
            + requested.len(),
    decreases requested.len(),
{
    if requested.len() > 0 {
        lemma_summon_envs_len(all_vars, requested.drop_last());
    }
}

/// Gathers the variables to pass to the summoned gVim: all of
/// `all_vars` where given (`--all-envs`), then each requested name with its
/// value where it is set (`--env`).
pub fn summon_envs(
    all_vars: Option<Vec<(String, String)>>,
    requested: Vec<(String, Option<String>)>,
) -> (r: Vec<(String, String)>)
    ensures
        r@ == summon_envs_spec(
            match all_vars {
                Some(v) => Some(v@),
                None => None,
            },
            requested@,
        ),
{
    let ghost all = match &all_vars {
        Some(v) => Some(v@),
        None => None::<Seq<(String, String)>>,
    };
    let mut envs: Vec<(String, String)> = match all_vars {
        Some(v) => v,
        None => Vec::new(),
    };
    let mut requested = requested;
    let ghost req = requested@;
    let total = requested.len();
    let mut pending: Vec<(String, Option<String>)> = Vec::new();
    // Take the requests in order: reverse them onto a stack first.
    while requested.len() > 0
        invariant
            pending@ + requested@.reverse() =~= req.reverse(),
        decreases requested@.len(),
    {
        let item = requested.pop().unwrap();
        proof {
            assert(requested@.push(item).reverse() =~= seq![item] + requested@.reverse());
        }
        pending.push(item);
    }
    assert(pending@ =~= req.reverse());
    let mut done: usize = 0;
    assert(req.subrange(0, 0) =~= Seq::<(String, Option<String>)>::empty());
    while pending.len() > 0
        invariant
            total == req.len(),
            done + pending@.len() == req.len(),
            forall|k: int| 0 <= k < pending@.len() ==> pending@[k] == req[req.len() - 1 - k],
            envs@ == summon_envs_spec(all, req.subrange(0, done as int)),
        decreases pending@.len(),
    {
        let ghost before = pending@;
        let (key, value) = pending.pop().unwrap();
        assert((key, value) == req[done as int]);
        let ghost sub = req.subrange(0, done + 1);
        assert(sub.drop_last() =~= req.subrange(0, done as int));
        match value {
            Some(v) => {
                envs.push((key, v));
            },
            None => {},
        }
        done = done + 1;
        assert forall|k: int| 0 <= k < pending@.len() implies pending@[k] == req[req.len() - 1
            - k] by {
            assert(pending@[k] == before[k]);
        }
    }
    assert(req.subrange(0, done as int) =~= req);
    envs
}

/// The conditions of a broadcast: none given selects every instance.
pub fn broadcast_conditions(arg: Option<&str>) -> (r: Result<ConditionSet, String>)
    ensures
        arg is None ==> (r matches Ok(set) && set@ == Set::<Condition>::empty()),
        arg matches Some(s) ==> match r {
            Ok(set) => parse_condition_spec(s@) == Ok::<Set<Condition>, Seq<char>>(set@),
            Err(msg) => parse_condition_spec(s@) == Err::<Set<Condition>, Seq<char>>(msg@),
        },
{
    match arg {
        Some(s) => parse_condition(s),
        None => Ok(ConditionSet::new()),
    }
}

} // verus!
