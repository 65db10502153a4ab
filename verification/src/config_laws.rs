//! What a configuration has to keep, rule by rule, and what it is warned of.

use vstd::prelude::*;

use crate::config::{
    always_allowed, always_problem, background_allowed, background_problem, config_problem,
    default_protected, findings, first_problem, high_core_means, host_findings,
    no_problem_means_valid, present, protected_names, valid_config, AlwaysView, BackgroundView,
    ConfigView,
};
use crate::rule_laws::{same_name, same_name_means};
use crate::text::{blank_means_all_space, fold, is_blank, is_space};

verus! {

/// A name that holds more than white space.
pub open spec fn has_text(name: Seq<char>) -> bool {
    exists|i: int| 0 <= i < name.len() && !is_space(#[trigger] name[i])
}

/// A name that is protected by default or by the configuration, in any ASCII case.
pub open spec fn is_protected_name(c: ConfigView, name: Seq<char>) -> bool {
    ||| exists|i: int|
        0 <= i < default_protected().len() && same_name(#[trigger] default_protected()[i], name)
    ||| exists|i: int|
        0 <= i < c.protected_extra.len() && same_name(#[trigger] c.protected_extra[i], name)
}

/// Every core fits a 64-bit mask.
pub open spec fn low_cores(cores: Seq<u8>) -> bool {
    forall|i: int| 0 <= i < cores.len() ==> #[trigger] cores[i] < 64
}

/// A background rule that is in order: it has a name; it suspends or trims no protected
/// process; its quota, if it has one, is from 1 to 100; its affinity, if it has one, names
/// at least one core and none past 63.
pub open spec fn background_in_order(c: ConfigView, b: BackgroundView) -> bool {
    &&& has_text(b.name)
    &&& !((b.suspend || b.trim_memory) && is_protected_name(c, b.name))
    &&& b.qos_cpu_quota is None || 1 <= b.qos_cpu_quota->0 <= 100
    &&& b.affinity is None || b.affinity->0.len() > 0 && low_cores(b.affinity->0)
}

/// An always-rule that is in order: it has a name, and its affinity names no core past 63.
pub open spec fn always_in_order(r: AlwaysView) -> bool {
    has_text(r.name) && (r.affinity is None || low_cores(r.affinity->0))
}

proof fn protected_name_means(c: ConfigView, name: Seq<char>)
    ensures
        is_protected_name(c, name) <==> protected_names(c.protected_extra).contains(fold(name)),
{
    let d = default_protected();
    let e = c.protected_extra;
    assert forall|i: int| 0 <= i < d.len() implies (same_name(#[trigger] d[i], name) <==> fold(d[i])
        == fold(name)) by {
        same_name_means(d[i], name);
    }
    assert forall|i: int| 0 <= i < e.len() implies (same_name(#[trigger] e[i], name) <==> fold(e[i])
        == fold(name)) by {
        same_name_means(e[i], name);
    }
    if protected_names(e).contains(fold(name)) {
        if exists|i: int| 0 <= i < d.len() && fold(name) == fold(#[trigger] d[i]) {
            let i = choose|i: int| 0 <= i < d.len() && fold(name) == fold(#[trigger] d[i]);
            assert(same_name(d[i], name));
        } else {
            let i = choose|i: int| 0 <= i < e.len() && fold(name) == fold(#[trigger] e[i]);
            assert(same_name(e[i], name));
        }
    }
}

proof fn has_text_means(name: Seq<char>)
    ensures
        has_text(name) <==> !is_blank(name),
{
    blank_means_all_space(name);
}

/// A configuration is valid exactly when every rule in it is in order, and only then has it
/// no problem to tell of.
pub proof fn valid_means_every_rule_is_in_order(c: ConfigView)
    ensures
        valid_config(c) <==> {
            &&& forall|i: int|
                0 <= i < c.background.len() ==> background_in_order(c, #[trigger] c.background[i])
            &&& forall|i: int| 0 <= i < c.rule.len() ==> always_in_order(#[trigger] c.rule[i])
        },
        config_problem(c) is None <==> valid_config(c),
{
    no_problem_means_valid(c);
    assert forall|i: int| 0 <= i < c.background.len() implies (background_in_order(
        c,
        #[trigger] c.background[i],
    ) <==> background_allowed(c.background[i], protected_names(c.protected_extra))) by {
        protected_name_means(c, c.background[i].name);
        has_text_means(c.background[i].name);
    }
    assert forall|i: int| 0 <= i < c.rule.len() implies (always_in_order(#[trigger] c.rule[i])
        <==> always_allowed(c.rule[i])) by {
        has_text_means(c.rule[i].name);
    }
}

/// An affinity names a core that a host with this many processors lacks.
pub open spec fn lacks_core(affinity: Option<Seq<u8>>, cpus: u32) -> bool {
    affinity is Some && exists|k: int|
        0 <= k < affinity->0.len() && #[trigger] affinity->0[k] >= cpus
}

/// A configuration is warned of a host exactly when the number of its processors is known
/// and some rule names a core that it lacks.
#[verifier::rlimit(40)]
pub proof fn warned_of_missing_cores(c: ConfigView, cpus: u32)
    ensures
        present(host_findings(c, cpus)).len() > 0 <==> cpus > 0 && {
            ||| exists|i: int|
                0 <= i < c.background.len() && lacks_core(
                    (#[trigger] c.background[i]).affinity,
                    cpus,
                )
            ||| exists|i: int|
                0 <= i < c.rule.len() && lacks_core((#[trigger] c.rule[i]).affinity, cpus)
        },
{
    let all = host_findings(c, cpus);
    let n = c.background.len() as int;
    some_present(all);
    assert forall|i: int| 0 <= i < n implies (all[i] is Some <==> cpus > 0 && lacks_core(
        (#[trigger] c.background[i]).affinity,
        cpus,
    )) by {}
    assert forall|i: int| 0 <= i < c.rule.len() implies (all[n + i] is Some <==> cpus > 0
        && lacks_core((#[trigger] c.rule[i]).affinity, cpus)) by {}
    if present(all).len() > 0 {
        let i = choose|i: int| 0 <= i < all.len() && (#[trigger] all[i]) is Some;
        if i < n {
            assert(lacks_core(c.background[i].affinity, cpus));
        } else {
            assert(all[n + (i - n)] is Some);
            assert(lacks_core(c.rule[i - n].affinity, cpus));
        }
    }
    if cpus > 0 {
        if exists|i: int|
            0 <= i < n && lacks_core((#[trigger] c.background[i]).affinity, cpus) {
            let i = choose|i: int|
                0 <= i < n && lacks_core((#[trigger] c.background[i]).affinity, cpus);
            assert(all[i] is Some);
        } else if exists|i: int|
            0 <= i < c.rule.len() && lacks_core((#[trigger] c.rule[i]).affinity, cpus) {
            let i = choose|i: int|
                0 <= i < c.rule.len() && lacks_core((#[trigger] c.rule[i]).affinity, cpus);
            assert(all[n + i] is Some);
        }
    }
}

proof fn some_present(findings: Seq<Option<Seq<char>>>)
    ensures
        present(findings).len() > 0 <==> exists|i: int|
            0 <= i < findings.len() && (#[trigger] findings[i]) is Some,
    decreases findings.len(),
{
    if findings.len() > 0 {
        let head = findings.drop_last();
        some_present(head);
        if findings.last() is Some {
            assert(findings[findings.len() - 1] is Some);
        } else {
            if exists|i: int| 0 <= i < findings.len() && (#[trigger] findings[i]) is Some {
                let i = choose|i: int| 0 <= i < findings.len() && (#[trigger] findings[i]) is Some;
                assert(head[i] is Some);
            }
            if exists|i: int| 0 <= i < head.len() && (#[trigger] head[i]) is Some {
                let i = choose|i: int| 0 <= i < head.len() && (#[trigger] head[i]) is Some;
                assert(findings[i] is Some);
            }
        }
    }
}

/// What is told of an invalid configuration is the problem of its first background rule
/// that is not in order, or, where all of these are, that of its first always-rule that is
/// not.
#[verifier::rlimit(40)]
pub proof fn first_problem_is_told(c: ConfigView, i: int)
    ensures
        0 <= i < c.background.len() && !background_in_order(c, c.background[i]) && (forall|j: int|
            0 <= j < i ==> background_in_order(c, #[trigger] c.background[j])) ==> config_problem(c)
            is Some && config_problem(c) == background_problem(
            c.background[i],
            protected_names(c.protected_extra),
        ),
        0 <= i < c.rule.len() && !always_in_order(c.rule[i]) && (forall|j: int|
            0 <= j < c.background.len() ==> background_in_order(c, #[trigger] c.background[j])) && (
        forall|j: int| 0 <= j < i ==> always_in_order(#[trigger] c.rule[j])) ==> config_problem(c)
            is Some && config_problem(c) == always_problem(c.rule[i]),
{
    let f = findings(c);
    let n = c.background.len() as int;
    assert forall|j: int| 0 <= j < n implies (f[j] is None <==> background_in_order(
        c,
        #[trigger] c.background[j],
    )) by {
        rule_problem_means(c, c.background[j]);
    }
    assert forall|j: int| 0 <= j < c.rule.len() implies (f[n + j] is None <==> always_in_order(
        #[trigger] c.rule[j],
    )) by {
        always_problem_means(c.rule[j]);
    }
    if 0 <= i < n && !background_in_order(c, c.background[i]) && (forall|j: int|
        0 <= j < i ==> background_in_order(c, #[trigger] c.background[j])) {
        assert forall|j: int| 0 <= j < i implies (#[trigger] f[j]) is None by {
            assert(background_in_order(c, c.background[j]));
        }
        first_found(f, i);
    }
    if 0 <= i < c.rule.len() && !always_in_order(c.rule[i]) && (forall|j: int|
        0 <= j < n ==> background_in_order(c, #[trigger] c.background[j])) && (forall|j: int|
        0 <= j < i ==> always_in_order(#[trigger] c.rule[j])) {
        assert forall|j: int| 0 <= j < n + i implies (#[trigger] f[j]) is None by {
            if j < n {
                assert(background_in_order(c, c.background[j]));
            } else {
                assert(always_in_order(c.rule[j - n]));
                assert(f[n + (j - n)] is None);
            }
        }
        first_found(f, n + i);
    }
}

proof fn rule_problem_means(c: ConfigView, b: BackgroundView)
    ensures
        background_problem(b, protected_names(c.protected_extra)) is None <==> background_in_order(
            c,
            b,
        ),
{
    protected_name_means(c, b.name);
    has_text_means(b.name);
    if b.affinity is Some {
        high_core_means(b.affinity->0);
    }
}

proof fn always_problem_means(r: AlwaysView)
    ensures
        always_problem(r) is None <==> always_in_order(r),
{
    has_text_means(r.name);
    if r.affinity is Some {
        high_core_means(r.affinity->0);
    }
}

proof fn first_found(findings: Seq<Option<Seq<char>>>, k: int)
    requires
        0 <= k < findings.len(),
        findings[k] is Some,
        forall|j: int| 0 <= j < k ==> (#[trigger] findings[j]) is None,
    ensures
        first_problem(findings) == findings[k],
    decreases k,
{
    if k > 0 {
        let rest = findings.skip(1);
        assert(findings[0] is None);
        assert(rest[k - 1] == findings[k]);
        assert forall|j: int| 0 <= j < k - 1 implies (#[trigger] rest[j]) is None by {
            assert(rest[j] == findings[j + 1]);
        }
        first_found(rest, k - 1);
    }
}

} // verus!
