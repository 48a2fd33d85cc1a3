//! The stock of waiting gVim instances, first in first out, and what the
//! collector does to it on renewal and cleaning.

use std::collections::VecDeque;
use vstd::prelude::*;
use crate::gvim::{instance_views, Instance, SpawnOptions, STOCKED_WINDOW_ROLE};
use crate::text::{str_eq, views};

verus! {

/// One stocked gVim: its window, its server name, and the reader of its
/// standard output (read when a summoner waits for the editor to end).
pub struct Stock<R> {
    pub window: u64,
    pub servername: String,
    pub stdout_reader: R,
}

/// The windows of stocks.
pub open spec fn stock_windows<R>(q: Seq<Stock<R>>) -> Seq<u64> {
    q.map_values(|s: Stock<R>| s.window)
}

/// The server names of stocks.
pub open spec fn stock_servernames<R>(q: Seq<Stock<R>>) -> Seq<Seq<char>> {
    q.map_values(|s: Stock<R>| s.servername@)
}

/// The windows and the server names of stocks are those of each stock, in
/// the stock's order.
pub proof fn law_stock_windows_and_names<R>(q: Seq<Stock<R>>, i: int)
    requires
        0 <= i < q.len(),
    ensures
        stock_windows(q).len() == q.len(),
        stock_servernames(q).len() == q.len(),
        stock_windows(q)[i] == q[i].window,
        stock_servernames(q)[i] == q[i].servername@,
{
}

/// The stocked instances, oldest first.
pub struct Stocks<R> {
    queue: VecDeque<Stock<R>>,
}

impl<R> View for Stocks<R> {
    type V = Seq<Stock<R>>;

    closed spec fn view(&self) -> Seq<Stock<R>> {
        self.queue@
    }
}

/// How the stock is renewed when a watched file changes: either all stocked
/// instances are killed and `max_stocks` new ones started, or keys are sent
/// to each of them.
#[derive(Clone)]
pub enum RenewOptions {
    Restart { max_stocks: usize, spawn_options: SpawnOptions },
    Reload { keys: Vec<String> },
}

/// What a renewal leaves to be done outside the stock.
pub enum RenewPlan {
    /// Kill these windows, then start `count` new instances.
    Restart { killees: Vec<u64>, count: usize, spawn_options: SpawnOptions },
    /// Send these keys to each of these servers.
    Reload { servernames: Vec<String>, keys: Vec<String> },
}

impl<R> Stocks<R> {
    /// An empty stock.
    pub fn new() -> (r: Stocks<R>)
        ensures
            r@ == Seq::<Stock<R>>::empty(),
    {
        Stocks { queue: VecDeque::new() }
    }

    /// The number of stocked instances.
    pub fn len(&self) -> (r: usize)
        ensures
            r == self@.len(),
    {
        self.queue.len()
    }

    /// Adds an instance at the end of the stock.
    pub fn push_back(&mut self, stock: Stock<R>)
        ensures
            final(self)@ == old(self)@.push(stock),
    {
        self.queue.push_back(stock);
    }

    /// Takes the oldest instance out of the stock, if there is one.
    pub fn pop_front(&mut self) -> (r: Option<Stock<R>>)
        ensures
            old(self)@.len() == 0 ==> r is None && final(self)@ == old(self)@,
            old(self)@.len() > 0 ==> r == Some(old(self)@[0]) && final(self)@ == old(
                self,
            )@.drop_first(),
    {
        let r = self.queue.pop_front();
        proof {
            if old(self)@.len() > 0 {
                assert(self@ =~= old(self)@.drop_first());
            }
        }
        r
    }

    /// The windows of the stocked instances, oldest first.
    pub fn windows(&self) -> (r: Vec<u64>)
        ensures
            r@ == stock_windows(self@),
    {
        let mut res: Vec<u64> = Vec::new();
        let mut i: usize = 0;
        while i < self.queue.len()
            invariant
                i <= self@.len(),
                res@.len() == i,
                forall|k: int| 0 <= k < i ==> res@[k] == self@[k].window,
            decreases self@.len() - i,
        {
            res.push(self.queue[i].window);
            i = i + 1;
        }
        assert(res@ =~= stock_windows(self@));
        res
    }

    /// The server names of the stocked instances, oldest first.
    pub fn servernames(&self) -> (r: Vec<String>)
        ensures
            views(r@) == stock_servernames(self@),
    {
        let mut res: Vec<String> = Vec::new();
        let mut i: usize = 0;
        while i < self.queue.len()
            invariant
                i <= self@.len(),
                res@.len() == i,
                forall|k: int| 0 <= k < i ==> res@[k]@ == self@[k].servername@,
            decreases self@.len() - i,
        {
            res.push(self.queue[i].servername.clone());
            i = i + 1;
        }
        assert(views(res@) =~= stock_servernames(self@));
        res
    }

    /// Renews the stock: on `Restart` the stock is emptied and its windows are
    /// given to be killed, with the number of instances to start; on `Reload`
    /// the stock is kept and its server names are given with the keys.
    pub fn renew(&mut self, options: RenewOptions) -> (r: RenewPlan)
        ensures
            match options {
                RenewOptions::Restart { max_stocks, spawn_options } => r matches RenewPlan::Restart {
                    killees,
                    count,
                    spawn_options: so,
                } && killees@ == stock_windows(old(self)@) && count == max_stocks && so
                    == spawn_options && final(self)@ == Seq::<Stock<R>>::empty(),
                RenewOptions::Reload { keys } => r matches RenewPlan::Reload {
                    servernames,
                    keys: k,
                } && views(servernames@) == stock_servernames(old(self)@) && k == keys
                    && final(self)@ == old(self)@,
            },
    {
        match options {
            RenewOptions::Restart { max_stocks, spawn_options } => {
                let killees = self.windows();
                self.queue.clear();
                RenewPlan::Restart { killees, count: max_stocks, spawn_options }
            },
            RenewOptions::Reload { keys } => {
                let servernames = self.servernames();
                RenewPlan::Reload { servernames, keys }
            },
        }
    }
}

/// A gVim instance with the role that its window carries.
pub struct RoleProbe {
    pub instance: Instance,
    pub role: Option<String>,
}

/// An instance is cleaned away when it carries the stocked role and its
/// window is not in the stock.
pub open spec fn is_stray(stock_windows: Seq<u64>, p: RoleProbe) -> bool {
    &&& !stock_windows.contains(p.instance.window)
    &&& p.role matches Some(role) && role@ == STOCKED_WINDOW_ROLE@
}

/// The stray instances among the probes, in order.
pub open spec fn strays(stock_windows: Seq<u64>, probes: Seq<RoleProbe>) -> Seq<
    (u64, Seq<char>, Seq<char>),
>
    decreases probes.len(),
{
    if probes.len() == 0 {
        Seq::empty()
    } else {
        let rest = strays(stock_windows, probes.drop_last());
        if is_stray(stock_windows, probes.last()) {
            rest.push(probes.last().instance@)
        } else {
            rest
        }
    }
}

fn contains_window(windows: &[u64], w: u64) -> (r: bool)
    ensures
        r == windows@.contains(w),
{
    let mut i: usize = 0;
    while i < windows.len()
        invariant
            i <= windows@.len(),
            forall|k: int| 0 <= k < i ==> windows@[k] != w,
        decreases windows@.len() - i,
    {
        if windows[i] == w {
            return true;
        }
        i = i + 1;
    }
    false
}

/// The instances that cleaning kills: those with the stocked role whose
/// window is not one of `stock_windows` (the instances left behind by an
/// earlier collector).
pub fn clean(stock_windows: &[u64], probes: &[RoleProbe]) -> (r: Vec<Instance>)
    ensures
        instance_views(r@) == strays(stock_windows@, probes@),
{
    let mut res: Vec<Instance> = Vec::new();
    let mut i: usize = 0;
    assert(probes@.subrange(0, 0) =~= Seq::<RoleProbe>::empty());
    while i < probes.len()
        invariant
            i <= probes@.len(),
            instance_views(res@) == strays(stock_windows@, probes@.subrange(0, i as int)),
        decreases probes@.len() - i,
    {
        let p = &probes[i];
        let ghost sub = probes@.subrange(0, i + 1);
        assert(sub.drop_last() =~= probes@.subrange(0, i as int));
        assert(sub.last() == probes@[i as int]);
        if !contains_window(stock_windows, p.instance.window) {
            match &p.role {
                Some(role) => {
                    if str_eq(role.as_str(), STOCKED_WINDOW_ROLE) {
                        let inst = Instance {
                            window: p.instance.window,
                            servername: p.instance.servername.clone(),
                            title: p.instance.title.clone(),
                        };
                        let ghost before = instance_views(res@);
                        res.push(inst);
                        assert(instance_views(res@) =~= before.push(inst@));
                    }
                },
                None => {},
            }
        }
        i = i + 1;
    }
    assert(probes@.subrange(0, i as int) =~= probes@);
    res
}

proof fn lemma_strays_from(stock_windows: Seq<u64>, probes: Seq<RoleProbe>, k: int)
    requires
        0 <= k < strays(stock_windows, probes).len(),
    ensures
        exists|i: int|
            0 <= i < probes.len() && is_stray(stock_windows, #[trigger] probes[i])
                && probes[i].instance@ == strays(stock_windows, probes)[k],
    decreases probes.len(),
{
    let init = probes.drop_last();
    let rest = strays(stock_windows, init);
    let r = strays(stock_windows, probes);
    if k < rest.len() {
        assert(r[k] == rest[k]);
        lemma_strays_from(stock_windows, init, k);
        let i = choose|i: int|
            0 <= i < init.len() && is_stray(stock_windows, #[trigger] init[i])
                && init[i].instance@ == rest[k];
        assert(probes[i] == init[i]);
    } else {
        assert(is_stray(stock_windows, probes[probes.len() - 1]));
    }
}

proof fn lemma_strays_keep(stock_windows: Seq<u64>, probes: Seq<RoleProbe>, i: int)
    requires
        0 <= i < probes.len(),
        is_stray(stock_windows, probes[i]),
    ensures
        strays(stock_windows, probes).contains(probes[i].instance@),
    decreases probes.len(),
{
    let init = probes.drop_last();
    let rest = strays(stock_windows, init);
    let r = strays(stock_windows, probes);
    if i < init.len() {
        assert(init[i] == probes[i]);
        lemma_strays_keep(stock_windows, init, i);
        let k = choose|k: int| 0 <= k < rest.len() && rest[k] == probes[i].instance@;
        assert(r[k] == rest[k]);
    } else {
        assert(r[r.len() - 1] == probes[i].instance@);
    }
}

/// Cleaning kills only instances that carry the stocked role (`STOCKING`)
/// and are not in the stock, and kills every such instance.
pub proof fn law_clean_kills_stocked_role_strays(
    stock_windows: Seq<u64>,
    probes: Seq<RoleProbe>,
    i: int,
    k: int,
)
    ensures
        0 <= k < strays(stock_windows, probes).len() ==> exists|j: int|
            0 <= j < probes.len() && (#[trigger] probes[j]).instance@ == strays(
                stock_windows,
                probes,
            )[k] && !stock_windows.contains(probes[j].instance.window) && probes[j].role
                is Some && probes[j].role->0@ == "STOCKING"@,
        (0 <= i < probes.len() && !stock_windows.contains(probes[i].instance.window)
            && probes[i].role is Some && probes[i].role->0@ == "STOCKING"@) ==> strays(
            stock_windows,
            probes,
        ).contains(probes[i].instance@),
{
    reveal_strlit("STOCKING");
    assert(STOCKED_WINDOW_ROLE@ == "STOCKING"@);
    if 0 <= k < strays(stock_windows, probes).len() {
        lemma_strays_from(stock_windows, probes, k);
    }
    if 0 <= i < probes.len() && !stock_windows.contains(probes[i].instance.window)
        && probes[i].role is Some && probes[i].role->0@ == "STOCKING"@ {
        lemma_strays_keep(stock_windows, probes, i);
    }
}

/// Cleaning never kills a stocked window.
pub proof fn law_clean_spares_stock(stock_windows: Seq<u64>, probes: Seq<RoleProbe>)
    ensures
        forall|i: int|
            0 <= i < strays(stock_windows, probes).len() ==> !stock_windows.contains(
                #[trigger] strays(stock_windows, probes)[i].0,
            ),
    decreases probes.len(),
{
    if probes.len() > 0 {
        law_clean_spares_stock(stock_windows, probes.drop_last());
        let rest = strays(stock_windows, probes.drop_last());
        let r = strays(stock_windows, probes);
        assert forall|i: int| 0 <= i < r.len() implies !stock_windows.contains(
            #[trigger] r[i].0,
        ) by {
            if i < rest.len() {
                assert(r[i] == rest[i]);
            }
        }
    }
}

/// The stock hands out instances in the order in which they were added: after
/// an instance is added, the next one taken out is the oldest before it, or
/// the new one where the stock was empty; and the new one stays last.
pub proof fn law_stock_first_in_first_out<R>(q: Seq<Stock<R>>, s: Stock<R>)
    ensures
        q.push(s)[0] == (if q.len() == 0 {
            s
        } else {
            q[0]
        }),
        q.len() > 0 ==> q.push(s).drop_first() == q.drop_first().push(s),
        q.len() == 0 ==> q.push(s).drop_first() == q,
{
    if q.len() > 0 {
        assert(q.push(s).drop_first() =~= q.drop_first().push(s));
    } else {
        assert(q.push(s).drop_first() =~= q);
    }
}

} // verus!
