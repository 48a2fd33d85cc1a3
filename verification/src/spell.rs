//! The requests that clients send to the collector over its socket.

use vstd::prelude::*;
use crate::collector::RenewOptions;
use crate::gvim::SpawnOptions;
use crate::lister::ConditionSet;
use crate::summoner::SummonOptions;

verus! {

/// A request to the collector.
pub enum Spell {
    /// Bring up a stocked gVim and hand it the files; `nofork` makes the
    /// answer wait until the editor ends.
    Summon {
        after: Option<String>,
        before: Option<String>,
        change_directory: bool,
        envs: Vec<(String, String)>,
        expressions: Vec<String>,
        files: Vec<String>,
        keys: Vec<String>,
        nofork: bool,
        role: Option<String>,
        stdin_file: Option<String>,
        working_directory: String,
    },
    /// Send keys and expressions to the instances that meet the conditions.
    Broadcast { conditions: ConditionSet, keys: Vec<String>, expressions: Vec<String> },
    /// Renew the stock.
    Renew,
    /// Kill the stocked-role instances that are not in the stock.
    Clean,
}

impl Spell {
    /// The options of a summon request, and whether it waits for the editor.
    pub fn into_summon(self) -> (r: Option<(SummonOptions, bool)>)
        ensures
            match self {
                Spell::Summon {
                    after,
                    before,
                    change_directory,
                    envs,
                    expressions,
                    files,
                    keys,
                    nofork,
                    role,
                    stdin_file,
                    working_directory,
                } => r matches Some((o, n)) && n == nofork && o == (SummonOptions {
                    after,
                    before,
                    change_directory,
                    envs,
                    expressions,
                    files,
                    keys,
                    role,
                    stdin_file,
                    working_directory,
                }),
                _ => r is None,
            },
    {
        match self {
            Spell::Summon {
                after,
                before,
                change_directory,
                envs,
                expressions,
                files,
                keys,
                nofork,
                role,
                stdin_file,
                working_directory,
            } => Some(
                (
                    SummonOptions {
                        after,
                        before,
                        change_directory,
                        envs,
                        expressions,
                        files,
                        keys,
                        role,
                        stdin_file,
                        working_directory,
                    },
                    nofork,
                ),
            ),
            _ => None,
        }
    }
}

/// What the collector does for a request.
pub enum Order {
    /// Summon a stocked gVim with these options; wait for the editor where `true`.
    Summon(SummonOptions, bool),
    /// Send keys and expressions to the instances that meet the conditions.
    Broadcast { conditions: ConditionSet, keys: Vec<String>, expressions: Vec<String> },
    /// Renew the stock in this way.
    Renew(RenewOptions),
    /// Kill the stocked-role instances that are not in the stock.
    Clean,
}

/// Routes a request: a renewal asked over the socket restarts the stock with
/// the collector's own count and spawn options.
pub fn route(spell: Spell, max_stocks: usize, spawn_options: SpawnOptions) -> (r: Order)
    ensures
        match spell {
            Spell::Summon {
                after,
                before,
                change_directory,
                envs,
                expressions,
                files,
                keys,
                nofork,
                role,
                stdin_file,
                working_directory,
            } => r == Order::Summon(
                SummonOptions {
                    after,
                    before,
                    change_directory,
                    envs,
                    expressions,
                    files,
                    keys,
                    role,
                    stdin_file,
                    working_directory,
                },
                nofork,
            ),
            Spell::Broadcast { conditions, keys, expressions } => r == (Order::Broadcast {
                conditions,
                keys,
                expressions,
            }),
            Spell::Renew => r == Order::Renew(RenewOptions::Restart { max_stocks, spawn_options }),
            Spell::Clean => r is Clean,
        },
{
    match spell {
        Spell::Broadcast { conditions, keys, expressions } => Order::Broadcast {
            conditions,
            keys,
            expressions,
        },
        Spell::Renew => Order::Renew(RenewOptions::Restart { max_stocks, spawn_options }),
        Spell::Clean => Order::Clean,
        summon => match summon.into_summon() {
            Some((options, nofork)) => Order::Summon(options, nofork),
            None => Order::Clean,
        },
    }
}

/// What the collector answers a summon: the server name and a newline.
pub fn summon_reply(servername: &str) -> (r: String)
    ensures
        r@ == servername@.push('\n'),
{
    let mut r = servername.to_string();
    crate::text::push_char(&mut r, '\n');
    r
}

} // verus!
