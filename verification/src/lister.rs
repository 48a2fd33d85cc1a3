//! Conditions that select gVim instances, and the parser of their textual
//! form (`visible,!stocked`).

use vstd::prelude::*;
use crate::gvim::{instance_views, Instance, ServerProbe};
use crate::text::{
    contains_string,
    lemma_split_terminator_concat, lemma_split_terminator_single, split_terminator,
    split_terminator_spec, str_eq, views,
};

verus! {

/// One condition on a gVim instance. The flag inverts it: `Visible(false)`
/// asks for a visible window, `Visible(true)` for one that is not.
#[derive(PartialEq, Eq, Structural, Clone, Copy, Debug, Hash)]
pub enum Condition {
    Visible(bool),
    Stocked(bool),
    Panty(bool),
}

/// A set of conditions, each held once.
pub struct ConditionSet {
    items: Vec<Condition>,
}

impl View for ConditionSet {
    type V = Set<Condition>;

    closed spec fn view(&self) -> Set<Condition> {
        self.items@.to_set()
    }
}

impl ConditionSet {
    /// The items are distinct.
    #[verifier::type_invariant]
    spec fn items_distinct(&self) -> bool {
        self.items@.no_duplicates()
    }

    /// The number of conditions in the set.
    pub closed spec fn count(&self) -> nat {
        self.items@.len()
    }

    /// An empty set.
    pub fn new() -> (r: ConditionSet)
        ensures
            r@ == Set::<Condition>::empty(),
            r.count() == 0,
    {
        let r = ConditionSet { items: Vec::new() };
        assert(r.items@.to_set() =~= Set::<Condition>::empty());
        r
    }

    /// Tests whether `c` is in the set.
    pub fn contains(&self, c: Condition) -> (r: bool)
        ensures
            r == self@.contains(c),
    {
        let mut i: usize = 0;
        while i < self.items.len()
            invariant
                i <= self.items@.len(),
                forall|m: int| 0 <= m < i ==> self.items@[m] != c,
            decreases self.items@.len() - i,
        {
            if self.items[i] == c {
                assert(self.items@.contains(c));
                return true;
            }
            i = i + 1;
        }
        assert(!self.items@.contains(c));
        false
    }

    /// Adds `c`; tells whether it was new, as `HashSet::insert` does.
    pub fn insert(&mut self, c: Condition) -> (r: bool)
        ensures
            final(self)@ == old(self)@.insert(c),
            r == !old(self)@.contains(c),
            final(self).count() == old(self).count() + (if r { 1nat } else { 0nat }),
    {
        proof {
            use_type_invariant(&*self);
        }
        if self.contains(c) {
            assert(self@.insert(c) =~= self@);
            false
        } else {
            assert(!self.items@.contains(c));
            assert(self.items@.push(c).no_duplicates()) by {
                assert forall|i: int, j: int|
                    0 <= i < self.items@.len() + 1 && 0 <= j < self.items@.len() + 1 && i != j
                        implies self.items@.push(c)[i] != self.items@.push(c)[j] by {
                    if i == self.items@.len() as int {
                        assert(self.items@[j] != c);
                    } else if j == self.items@.len() as int {
                        assert(self.items@[i] != c);
                    }
                }
            }
            let mut items = self.items.clone();
            assert(items@ == old(self).items@);
            items.push(c);
            *self = ConditionSet { items };
            assert(self.items@.to_set() =~= old(self).items@.to_set().insert(c)) by {
                assert forall|x: Condition| #[trigger] self.items@.contains(x) <==> (old(
                    self,
                ).items@.contains(x) || x == c) by {
                    if self.items@.contains(x) {
                        let m = choose|m: int| 0 <= m < self.items@.len() && self.items@[m] == x;
                        if m < old(self).items@.len() {
                            assert(old(self).items@[m] == x);
                        }
                    }
                    if old(self).items@.contains(x) {
                        let m = choose|m: int|
                            0 <= m < old(self).items@.len() && old(self).items@[m] == x;
                        assert(self.items@[m] == x);
                    }
                    if x == c {
                        assert(self.items@[self.items@.len() - 1] == c);
                    }
                }
            }
            true
        }
    }

    /// The number of conditions.
    pub fn len(&self) -> (r: usize)
        ensures
            r == self.count(),
            r == self@.len(),
    {
        proof {
            use_type_invariant(self);
            self.items@.unique_seq_to_set();
        }
        self.items.len()
    }

    /// The conditions, in the order in which they were first added.
    pub fn to_vec(&self) -> (r: Vec<Condition>)
        ensures
            r@.to_set() == self@,
            r@.len() == self.count(),
            r@.no_duplicates(),
    {
        proof {
            use_type_invariant(self);
        }
        self.items.clone()
    }
}

/// The condition that a name stands for, with the given inversion.
pub open spec fn condition_of_name(name: Seq<char>, invert: bool) -> Option<Condition> {
    if name == "v"@ || name == "visible"@ {
        Some(Condition::Visible(invert))
    } else if name == "s"@ || name == "stocked"@ {
        Some(Condition::Stocked(invert))
    } else if name == "p"@ || name == "panty"@ {
        Some(Condition::Panty(invert))
    } else {
        None
    }
}

/// A term is inverted when it starts with `!`.
pub open spec fn term_invert(t: Seq<char>) -> bool {
    t.len() > 0 && t[0] == '!'
}

/// The name in a term, after a leading `!`.
pub open spec fn term_name(t: Seq<char>) -> Seq<char> {
    if term_invert(t) {
        t.drop_first()
    } else {
        t
    }
}

/// The condition that a term stands for, if its name is known.
pub open spec fn term_condition(t: Seq<char>) -> Option<Condition> {
    condition_of_name(term_name(t), term_invert(t))
}

/// The name of the first term whose name is not known.
pub open spec fn first_invalid_term(terms: Seq<Seq<char>>) -> Option<Seq<char>>
    decreases terms.len(),
{
    if terms.len() == 0 {
        None
    } else if term_condition(terms[0]) is None {
        Some(term_name(terms[0]))
    } else {
        first_invalid_term(terms.drop_first())
    }
}

/// The conditions that the terms stand for.
pub open spec fn term_conditions(terms: Seq<Seq<char>>) -> Set<Condition> {
    Set::new(
        |c: Condition|
            exists|i: int| 0 <= i < terms.len() && term_condition(terms[i]) == Some(c),
    )
}

/// What `parse_condition` gives on `s`: the terms are the pieces between
/// commas (a trailing comma ends the last term); the first term with an
/// unknown name is reported, else the set of the terms' conditions.
pub open spec fn parse_condition_spec(s: Seq<char>) -> Result<Set<Condition>, Seq<char>> {
    let terms = split_terminator_spec(s, ',');
    match first_invalid_term(terms) {
        Some(name) => Err("Invalid condition name: "@ + name),
        None => Ok(term_conditions(terms)),
    }
}

/// Reads the condition that one term stands for.
fn condition_of_term(t: &str) -> (r: Option<Condition>)
    ensures
        r == term_condition(t@),
{
    let n = t.unicode_len();
    let invert = n > 0 && t.get_char(0) == '!';
    let name = if invert {
        t.substring_char(1, n)
    } else {
        t
    };
    assert(name@ == term_name(t@));
    proof {
        reveal_strlit("v");
        reveal_strlit("visible");
        reveal_strlit("s");
        reveal_strlit("stocked");
        reveal_strlit("p");
        reveal_strlit("panty");
    }
    if str_eq(name, "v") || str_eq(name, "visible") {
        Some(Condition::Visible(invert))
    } else if str_eq(name, "s") || str_eq(name, "stocked") {
        Some(Condition::Stocked(invert))
    } else if str_eq(name, "p") || str_eq(name, "panty") {
        Some(Condition::Panty(invert))
    } else {
        None
    }
}

/// The name in a term, after a leading `!`.
fn name_of_term(t: &str) -> (r: String)
    ensures
        r@ == term_name(t@),
{
    let n = t.unicode_len();
    if n > 0 && t.get_char(0) == '!' {
        t.substring_char(1, n).to_string()
    } else {
        t.to_string()
    }
}

/// Parses a comma-separated list of condition names (`v`/`visible`,
/// `s`/`stocked`, `p`/`panty`, each with an optional leading `!`).
pub fn parse_condition(s: &str) -> (r: Result<ConditionSet, String>)
    ensures
        match r {
            Ok(set) => parse_condition_spec(s@) == Ok::<Set<Condition>, Seq<char>>(set@),
            Err(msg) => parse_condition_spec(s@) == Err::<Set<Condition>, Seq<char>>(msg@),
        },
{
    let terms = split_terminator(s, ',');
    let ghost ts = views(terms@);
    let mut set = ConditionSet::new();
    let mut i: usize = 0;
    assert(ts.subrange(0, ts.len() as int) =~= ts);
    assert(set@ =~= term_conditions(ts.subrange(0, 0)));
    while i < terms.len()
        invariant
            ts == views(terms@),
            ts == split_terminator_spec(s@, ','),
            i <= terms@.len(),
            first_invalid_term(ts) == first_invalid_term(ts.subrange(i as int, ts.len() as int)),
            set@ == term_conditions(ts.subrange(0, i as int)),
        decreases terms@.len() - i,
    {
        let term = terms[i].as_str();
        assert(term@ == ts[i as int]);
        let ghost tail = ts.subrange(i as int, ts.len() as int);
        assert(tail.drop_first() =~= ts.subrange(i + 1, ts.len() as int));
        match condition_of_term(term) {
            Some(c) => {
                set.insert(c);
                assert(set@ =~= term_conditions(ts.subrange(0, i + 1))) by {
                    let pre = ts.subrange(0, i as int);
                    let post = ts.subrange(0, i + 1);
                    assert forall|x: Condition| #[trigger]
                        term_conditions(post).contains(x) <==> (term_conditions(pre).contains(x)
                            || x == c) by {
                        if term_conditions(post).contains(x) {
                            let k = choose|k: int|
                                0 <= k < post.len() && term_condition(post[k]) == Some(x);
                            if k < i {
                                assert(pre[k] == post[k]);
                            }
                        }
                        if term_conditions(pre).contains(x) {
                            let k = choose|k: int|
                                0 <= k < pre.len() && term_condition(pre[k]) == Some(x);
                            assert(post[k] == pre[k]);
                        }
                        if x == c {
                            assert(post[i as int] == ts[i as int]);
                        }
                    }
                }
            },
            None => {
                let mut msg = String::from_str("Invalid condition name: ");
                let name = name_of_term(term);
                msg.append(name.as_str());
                return Err(msg);
            },
        }
        i = i + 1;
    }
    assert(ts.subrange(i as int, ts.len() as int).len() == 0);
    assert(ts.subrange(0, i as int) =~= ts);
    Ok(set)
}


proof fn lemma_first_invalid_concat(p: Seq<Seq<char>>, q: Seq<Seq<char>>)
    requires
        first_invalid_term(p) is None,
        first_invalid_term(q) is None,
    ensures
        first_invalid_term(p + q) is None,
    decreases p.len(),
{
    if p.len() == 0 {
        assert(p + q =~= q);
    } else {
        assert((p + q).drop_first() =~= p.drop_first() + q);
        lemma_first_invalid_concat(p.drop_first(), q);
    }
}

proof fn lemma_term_conditions_concat(p: Seq<Seq<char>>, q: Seq<Seq<char>>)
    ensures
        term_conditions(p + q) == term_conditions(p).union(term_conditions(q)),
{
    assert forall|c: Condition| #[trigger]
        term_conditions(p + q).contains(c) <==> term_conditions(p).union(
            term_conditions(q),
        ).contains(c) by {
        if term_conditions(p + q).contains(c) {
            let i = choose|i: int|
                0 <= i < (p + q).len() && term_condition((p + q)[i]) == Some(c);
            if i < p.len() {
                assert((p + q)[i] == p[i]);
            } else {
                assert((p + q)[i] == q[i - p.len()]);
            }
        }
        if term_conditions(p).contains(c) {
            let i = choose|i: int| 0 <= i < p.len() && term_condition(p[i]) == Some(c);
            assert((p + q)[i] == p[i]);
        }
        if term_conditions(q).contains(c) {
            let i = choose|i: int| 0 <= i < q.len() && term_condition(q[i]) == Some(c);
            assert((p + q)[i + p.len()] == q[i]);
        }
    }
    assert(term_conditions(p + q) =~= term_conditions(p).union(term_conditions(q)));
}

/// Two condition lists joined by a comma select the union of what each
/// selects, where both parse and the first is non-empty and does not end
/// with a comma.
pub proof fn law_parse_condition_join(a: Seq<char>, b: Seq<char>)
    requires
        parse_condition_spec(a) is Ok,
        parse_condition_spec(b) is Ok,
        a.len() > 0,
        a.last() != ',',
    ensures
        parse_condition_spec(a + seq![','] + b) == Ok::<Set<Condition>, Seq<char>>(
            parse_condition_spec(a)->Ok_0.union(parse_condition_spec(b)->Ok_0),
        ),
{
    lemma_split_terminator_concat(a, ',', b);
    let ta = split_terminator_spec(a, ',');
    let tb = split_terminator_spec(b, ',');
    lemma_first_invalid_concat(ta, tb);
    lemma_term_conditions_concat(ta, tb);
}


/// A `!` where the flag is set, nothing otherwise.
pub open spec fn bang(invert: bool) -> Seq<char> {
    if invert {
        seq!['!']
    } else {
        Seq::empty()
    }
}

proof fn lemma_parse_named_term(name: Seq<char>, invert: bool, c: Condition)
    requires
        name.len() > 0,
        name[0] != '!',
        forall|i: int| 0 <= i < name.len() ==> name[i] != ',',
        condition_of_name(name, invert) == Some(c),
    ensures
        parse_condition_spec(bang(invert) + name) == Ok::<Set<Condition>, Seq<char>>(set![c]),
{
    let t = bang(invert) + name;
    assert forall|i: int| 0 <= i < t.len() implies t[i] != ',' by {
        if invert && i == 0 {
        } else if invert {
            assert(t[i] == name[i - 1]);
        } else {
            assert(t[i] == name[i]);
        }
    }
    lemma_split_terminator_single(t, ',');
    assert(term_invert(t) == invert);
    assert(term_name(t) =~= name);
    assert(term_condition(t) == Some(c));
    let terms = seq![t];
    assert(terms.drop_first() =~= Seq::<Seq<char>>::empty());
    assert(terms[0] == t);
    assert(first_invalid_term(terms.drop_first()) is None);
    assert(first_invalid_term(terms) is None);
    assert(term_conditions(terms) =~= set![c]) by {
        assert(terms[0] == t);
    }
}

/// Each known name stands for its condition, with the flag set exactly where
/// the name is written after a `!`: `v` and `visible` for `Visible`, `s` and
/// `stocked` for `Stocked`, `p` and `panty` for `Panty`.
pub proof fn law_parse_condition_names(invert: bool)
    ensures
        parse_condition_spec(bang(invert) + "v"@) == Ok::<Set<Condition>, Seq<char>>(
            set![Condition::Visible(invert)],
        ),
        parse_condition_spec(bang(invert) + "visible"@) == Ok::<Set<Condition>, Seq<char>>(
            set![Condition::Visible(invert)],
        ),
        parse_condition_spec(bang(invert) + "s"@) == Ok::<Set<Condition>, Seq<char>>(
            set![Condition::Stocked(invert)],
        ),
        parse_condition_spec(bang(invert) + "stocked"@) == Ok::<Set<Condition>, Seq<char>>(
            set![Condition::Stocked(invert)],
        ),
        parse_condition_spec(bang(invert) + "p"@) == Ok::<Set<Condition>, Seq<char>>(
            set![Condition::Panty(invert)],
        ),
        parse_condition_spec(bang(invert) + "panty"@) == Ok::<Set<Condition>, Seq<char>>(
            set![Condition::Panty(invert)],
        ),
{
    reveal_strlit("v");
    reveal_strlit("visible");
    reveal_strlit("s");
    reveal_strlit("stocked");
    reveal_strlit("p");
    reveal_strlit("panty");
    lemma_parse_named_term("v"@, invert, Condition::Visible(invert));
    lemma_parse_named_term("visible"@, invert, Condition::Visible(invert));
    assert("s"@ != "v"@ && "s"@ != "visible"@) by {
        assert("s"@[0] != "v"@[0]);
    }
    assert("stocked"@ != "v"@ && "stocked"@ != "visible"@) by {
        assert("stocked"@[0] != "visible"@[0]);
    }
    lemma_parse_named_term("s"@, invert, Condition::Stocked(invert));
    lemma_parse_named_term("stocked"@, invert, Condition::Stocked(invert));
    assert("p"@ != "v"@ && "p"@ != "visible"@ && "p"@ != "s"@ && "p"@ != "stocked"@) by {
        assert("p"@[0] != "v"@[0]);
        assert("p"@[0] != "s"@[0]);
    }
    assert("panty"@ != "v"@ && "panty"@ != "visible"@ && "panty"@ != "s"@ && "panty"@
        != "stocked"@) by {
        assert("panty"@[0] != "visible"@[0]);
        assert("panty"@[0] != "stocked"@[0]);
    }
    lemma_parse_named_term("p"@, invert, Condition::Panty(invert));
    lemma_parse_named_term("panty"@, invert, Condition::Panty(invert));
}

/// Whether one condition holds of an instance that is or is not visible,
/// stocked, and managed by the collector (`panty`).
pub open spec fn condition_met(c: Condition, visible: bool, stocked: bool, panty: bool) -> bool {
    match c {
        Condition::Visible(invert) => invert != visible,
        Condition::Stocked(invert) => invert != stocked,
        Condition::Panty(invert) => invert != panty,
    }
}

/// Whether every condition of the set holds.
pub open spec fn conditions_met(
    conditions: Set<Condition>,
    visible: bool,
    stocked: bool,
    panty: bool,
) -> bool {
    forall|c: Condition| #[trigger] conditions.contains(c) ==> condition_met(c, visible, stocked, panty)
}

/// No condition holds of every instance; each condition selects by its own
/// flag of the instance (`Visible(false)` the visible ones, `Visible(true)`
/// the others, and likewise for stocked and panty); and a union of
/// conditions selects what both parts select.
pub proof fn law_conditions_select(
    a: Set<Condition>,
    b: Set<Condition>,
    invert: bool,
    visible: bool,
    stocked: bool,
    panty: bool,
)
    ensures
        conditions_met(Set::empty(), visible, stocked, panty),
        conditions_met(set![Condition::Visible(invert)], visible, stocked, panty) == (invert
            != visible),
        conditions_met(set![Condition::Stocked(invert)], visible, stocked, panty) == (invert
            != stocked),
        conditions_met(set![Condition::Panty(invert)], visible, stocked, panty) == (invert
            != panty),
        conditions_met(a.union(b), visible, stocked, panty) == (conditions_met(
            a,
            visible,
            stocked,
            panty,
        ) && conditions_met(b, visible, stocked, panty)),
{
    assert(set![Condition::Visible(invert)].contains(Condition::Visible(invert)));
    assert(set![Condition::Stocked(invert)].contains(Condition::Stocked(invert)));
    assert(set![Condition::Panty(invert)].contains(Condition::Panty(invert)));
    if conditions_met(a, visible, stocked, panty) && conditions_met(b, visible, stocked, panty) {
        assert forall|c: Condition| #[trigger] a.union(b).contains(c) implies condition_met(
            c,
            visible,
            stocked,
            panty,
        ) by {
            if a.contains(c) {
            } else {
                assert(b.contains(c));
            }
        }
    }
    if conditions_met(a.union(b), visible, stocked, panty) {
        assert forall|c: Condition| #[trigger] a.contains(c) implies condition_met(
            c,
            visible,
            stocked,
            panty,
        ) by {
            assert(a.union(b).contains(c));
        }
        assert forall|c: Condition| #[trigger] b.contains(c) implies condition_met(
            c,
            visible,
            stocked,
            panty,
        ) by {
            assert(a.union(b).contains(c));
        }
    }
}

/// Tests every condition of the set on an instance.
pub fn condition_match(conditions: &ConditionSet, visible: bool, stocked: bool, panty: bool) -> (r:
    bool)
    ensures
        r == conditions_met(conditions@, visible, stocked, panty),
{
    let items = conditions.to_vec();
    let mut i: usize = 0;
    while i < items.len()
        invariant
            i <= items@.len(),
            items@.to_set() == conditions@,
            forall|k: int| 0 <= k < i ==> condition_met(items@[k], visible, stocked, panty),
        decreases items@.len() - i,
    {
        let c = items[i];
        let m = match c {
            Condition::Visible(invert) => invert != visible,
            Condition::Stocked(invert) => invert != stocked,
            Condition::Panty(invert) => invert != panty,
        };
        if !m {
            assert(items@.to_set().contains(c));
            return false;
        }
        i = i + 1;
    }
    assert forall|c: Condition| #[trigger] conditions@.contains(c) implies condition_met(
        c,
        visible,
        stocked,
        panty,
    ) by {
        assert(items@.contains(c));
    }
    true
}

/// The instance that a server stands for in a listing: it told its window,
/// the conditions hold of it, and it has a title.
pub open spec fn listed_instance(
    conditions: Set<Condition>,
    stocked: Seq<Seq<char>>,
    p: ServerProbe,
) -> Option<(u64, Seq<char>, Seq<char>)> {
    match (p.window, p.title) {
        (Some(w), Some(t)) => if conditions_met(
            conditions,
            p.visible,
            stocked.contains(p.servername@),
            p.panty,
        ) {
            Some((w, p.servername@, t@))
        } else {
            None
        },
        _ => None,
    }
}

/// The listed instances of the servers, in order.
pub open spec fn listed_instances(
    conditions: Set<Condition>,
    stocked: Seq<Seq<char>>,
    probes: Seq<ServerProbe>,
) -> Seq<(u64, Seq<char>, Seq<char>)>
    decreases probes.len(),
{
    if probes.len() == 0 {
        Seq::empty()
    } else {
        let rest = listed_instances(conditions, stocked, probes.drop_last());
        match listed_instance(conditions, stocked, probes.last()) {
            Some(i) => rest.push(i),
            None => rest,
        }
    }
}


proof fn lemma_listed_from(
    conditions: Set<Condition>,
    stocked: Seq<Seq<char>>,
    probes: Seq<ServerProbe>,
    k: int,
)
    requires
        0 <= k < listed_instances(conditions, stocked, probes).len(),
    ensures
        exists|i: int|
            0 <= i < probes.len() && listed_instance(conditions, stocked, #[trigger] probes[i])
                == Some(listed_instances(conditions, stocked, probes)[k]),
    decreases probes.len(),
{
    let init = probes.drop_last();
    let rest = listed_instances(conditions, stocked, init);
    let r = listed_instances(conditions, stocked, probes);
    if k < rest.len() {
        assert(r[k] == rest[k]);
        lemma_listed_from(conditions, stocked, init, k);
        let i = choose|i: int|
            0 <= i < init.len() && listed_instance(conditions, stocked, #[trigger] init[i])
                == Some(rest[k]);
        assert(probes[i] == init[i]);
    } else {
        assert(listed_instance(conditions, stocked, probes[probes.len() - 1]) == Some(r[k]));
    }
}

proof fn lemma_listed_keep(
    conditions: Set<Condition>,
    stocked: Seq<Seq<char>>,
    probes: Seq<ServerProbe>,
    i: int,
)
    requires
        0 <= i < probes.len(),
        listed_instance(conditions, stocked, probes[i]) is Some,
    ensures
        listed_instances(conditions, stocked, probes).contains(
            listed_instance(conditions, stocked, probes[i])->Some_0,
        ),
    decreases probes.len(),
{
    let init = probes.drop_last();
    let rest = listed_instances(conditions, stocked, init);
    let r = listed_instances(conditions, stocked, probes);
    let x = listed_instance(conditions, stocked, probes[i])->Some_0;
    if i < init.len() {
        assert(init[i] == probes[i]);
        lemma_listed_keep(conditions, stocked, init, i);
        let k = choose|k: int| 0 <= k < rest.len() && rest[k] == x;
        assert(r[k] == rest[k]);
    } else {
        assert(r[r.len() - 1] == x);
    }
}

/// Each instance listed comes from a server that told its window and title
/// and of which every condition holds.
pub proof fn law_list_meets_conditions(
    conditions: Set<Condition>,
    stocked: Seq<Seq<char>>,
    probes: Seq<ServerProbe>,
    k: int,
)
    requires
        0 <= k < listed_instances(conditions, stocked, probes).len(),
    ensures
        exists|i: int|
            0 <= i < probes.len() && (#[trigger] probes[i]).window == Some(
                listed_instances(conditions, stocked, probes)[k].0,
            ) && probes[i].servername@ == listed_instances(conditions, stocked, probes)[k].1
                && probes[i].title is Some && probes[i].title->0@ == listed_instances(
                conditions,
                stocked,
                probes,
            )[k].2 && conditions_met(
                conditions,
                probes[i].visible,
                stocked.contains(probes[i].servername@),
                probes[i].panty,
            ),
{
    lemma_listed_from(conditions, stocked, probes, k);
    let i = choose|i: int|
        0 <= i < probes.len() && listed_instance(conditions, stocked, #[trigger] probes[i])
            == Some(listed_instances(conditions, stocked, probes)[k]);
    assert(probes[i].window is Some);
}

/// Every server that told its window and title, and of which every
/// condition holds, is listed.
pub proof fn law_list_finds_all(
    conditions: Set<Condition>,
    stocked: Seq<Seq<char>>,
    probes: Seq<ServerProbe>,
    i: int,
)
    requires
        0 <= i < probes.len(),
        probes[i].window is Some,
        probes[i].title is Some,
        conditions_met(
            conditions,
            probes[i].visible,
            stocked.contains(probes[i].servername@),
            probes[i].panty,
        ),
    ensures
        listed_instances(conditions, stocked, probes).contains(
            (probes[i].window->0, probes[i].servername@, probes[i].title->0@),
        ),
{
    lemma_listed_keep(conditions, stocked, probes, i);
}

/// The running gVim instances that meet the conditions, given the server
/// names of the stocked ones.
pub fn list(stocked: &[String], conditions: &ConditionSet, probes: &[ServerProbe]) -> (r: Vec<
    Instance,
>)
    ensures
        instance_views(r@) == listed_instances(conditions@, views(stocked@), probes@),
{
    let mut res: Vec<Instance> = Vec::new();
    let mut i: usize = 0;
    assert(probes@.subrange(0, 0) =~= Seq::<ServerProbe>::empty());
    while i < probes.len()
        invariant
            i <= probes@.len(),
            instance_views(res@) == listed_instances(
                conditions@,
                views(stocked@),
                probes@.subrange(0, i as int),
            ),
        decreases probes@.len() - i,
    {
        let p = &probes[i];
        let ghost sub = probes@.subrange(0, i + 1);
        assert(sub.drop_last() =~= probes@.subrange(0, i as int));
        assert(sub.last() == probes@[i as int]);
        match (p.window, &p.title) {
            (Some(w), Some(t)) => {
                let st = contains_string(stocked, p.servername.as_str());
                if condition_match(conditions, p.visible, st, p.panty) {
                    let inst = Instance { window: w, servername: p.servername.clone(), title: t.clone() };
                    let ghost before = instance_views(res@);
                    res.push(inst);
                    assert(instance_views(res@) =~= before.push(inst@));
                }
            },
            _ => {},
        }
        i = i + 1;
    }
    assert(probes@.subrange(0, i as int) =~= probes@);
    res
}

} // verus!
