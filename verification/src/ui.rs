//! The rule editor: how its controls stand for a configuration, and what each
//! event does to it.

use vstd::prelude::*;

use crate::config::{AffinitySpec, BackgroundRule, BackgroundView, PriorityClass};
use crate::rule_laws::{named_in, named_means};
use crate::text::{
    contains, contains_text, decimal, decimal_is_number, decimal_reads_back, decimal_text, fold,
    is_digit, join2, number_in, parse_number, split, split_at_last_separator, split_on,
    split_without_separator, texts, to_ascii_lowercase, trim, trimmed, trimmed_already,
};

verus! {

// ---------------------------------------------------------------------------
// Controls and values
// ---------------------------------------------------------------------------
/// The rule that the global options give a background process.
pub open spec fn toggled_rule(
    name: Seq<char>,
    suspend: bool,
    low_priority: bool,
    cpu_limit: bool,
    cpu_pct: u32,
    trim_memory: bool,
) -> BackgroundView {
    BackgroundView {
        name,
        suspend,
        priority: if low_priority {
            Some(PriorityClass::BelowNormal)
        } else {
            None
        },
        affinity: None,
        qos_cpu_quota: if cpu_limit {
            Some(cpu_pct)
        } else {
            None
        },
        trim_memory,
    }
}

pub fn bg_rule_from_toggles(
    name: String,
    suspend: bool,
    low_priority: bool,
    cpu_limit: bool,
    cpu_pct: u32,
    trim_memory: bool,
) -> (r: BackgroundRule)
    ensures
        r@ == toggled_rule(name@, suspend, low_priority, cpu_limit, cpu_pct, trim_memory),
{
    BackgroundRule {
        name,
        suspend,
        priority: if low_priority {
            Some(PriorityClass::BelowNormal)
        } else {
            None
        },
        affinity: None,
        qos_cpu_quota: if cpu_limit {
            Some(cpu_pct)
        } else {
            None
        },
        trim_memory,
    }
}

/// The quota of a processor level: low, medium (also for what is no level), high.
pub open spec fn level_quota(level: usize) -> u32 {
    if level == 0 {
        30
    } else if level == 2 {
        70
    } else {
        50
    }
}

/// The processor level of a quota; medium for a quota that no other level has.
pub open spec fn quota_level(pct: u32) -> usize {
    if pct == 30 {
        0
    } else if pct == 70 {
        2
    } else {
        1
    }
}

pub fn cpu_level_to_pct(level: usize) -> (r: u32)
    ensures
        r == level_quota(level),
{
    match level {
        0 => 30,
        2 => 70,
        _ => 50,
    }
}

pub fn pct_to_cpu_level(pct: u32) -> (r: usize)
    ensures
        r == quota_level(pct),
{
    match pct {
        30 => 0,
        70 => 2,
        _ => 1,
    }
}

/// Each of the three levels is found again from its quota.
pub proof fn cpu_level_round_trip(level: usize)
    requires
        level <= 2,
    ensures
        quota_level(level_quota(level)) == level,
{
}

/// The index of a priority class in its list.
pub open spec fn priority_index(p: PriorityClass) -> usize {
    match p {
        PriorityClass::Idle => 0,
        PriorityClass::BelowNormal => 1,
        PriorityClass::Normal => 2,
        PriorityClass::AboveNormal => 3,
        PriorityClass::High => 4,
        PriorityClass::Realtime => 5,
    }
}

/// The priority class at an index of the list.
pub open spec fn priority_at(i: usize) -> Option<PriorityClass> {
    if i == 0 {
        Some(PriorityClass::Idle)
    } else if i == 1 {
        Some(PriorityClass::BelowNormal)
    } else if i == 2 {
        Some(PriorityClass::Normal)
    } else if i == 3 {
        Some(PriorityClass::AboveNormal)
    } else if i == 4 {
        Some(PriorityClass::High)
    } else if i == 5 {
        Some(PriorityClass::Realtime)
    } else {
        None
    }
}

pub fn priority_to_idx(p: PriorityClass) -> (r: usize)
    ensures
        r == priority_index(p),
{
    match p {
        PriorityClass::Idle => 0,
        PriorityClass::BelowNormal => 1,
        PriorityClass::Normal => 2,
        PriorityClass::AboveNormal => 3,
        PriorityClass::High => 4,
        PriorityClass::Realtime => 5,
    }
}

pub fn idx_to_priority(i: usize) -> (r: Option<PriorityClass>)
    ensures
        r == priority_at(i),
{
    match i {
        0 => Some(PriorityClass::Idle),
        1 => Some(PriorityClass::BelowNormal),
        2 => Some(PriorityClass::Normal),
        3 => Some(PriorityClass::AboveNormal),
        4 => Some(PriorityClass::High),
        5 => Some(PriorityClass::Realtime),
        _ => None,
    }
}

/// A priority class is found again at its index, and an index that has a class
/// is the index of that class.
pub proof fn priority_index_round_trip(p: PriorityClass, i: usize)
    ensures
        priority_at(priority_index(p)) == Some(p),
        priority_at(i) is Some ==> priority_index(priority_at(i)->0) == i,
{
}

/// What a core in an affinity text says; `all` is the text it stands in.
pub open spec fn core_in(all: Seq<char>, part: Seq<char>) -> Result<u8, Seq<char>> {
    if part.len() == 0 {
        Err("empty core in '"@ + all + "'"@)
    } else {
        match number_in(part) {
            Some(n) => if n > 255 {
                Err("bad core '"@ + part + "'"@)
            } else if n >= 64 {
                Err("core "@ + decimal(n) + " >= 64"@)
            } else {
                Ok(n as u8)
            },
            None => Err("bad core '"@ + part + "'"@),
        }
    }
}

/// The cores of the first parts; the error of the first part that has one.
pub open spec fn cores_in_parts(all: Seq<char>, parts: Seq<Seq<char>>) -> Result<
    Seq<u8>,
    Seq<char>,
>
    decreases parts.len(),
{
    if parts.len() == 0 {
        Ok(Seq::empty())
    } else {
        match cores_in_parts(all, parts.drop_last()) {
            Err(e) => Err(e),
            Ok(cores) => match core_in(all, trimmed(parts.last())) {
                Err(e) => Err(e),
                Ok(c) => Ok(cores.push(c)),
            },
        }
    }
}

/// The cores in an affinity text such as `"0,1,2"`; none in a blank one.
pub open spec fn affinity_in(text: Seq<char>) -> Result<Option<Seq<u8>>, Seq<char>> {
    let t = trimmed(text);
    if t.len() == 0 {
        Ok(None)
    } else {
        match cores_in_parts(t, split(t, ',')) {
            Ok(cores) => Ok(Some(cores)),
            Err(e) => Err(e),
        }
    }
}

/// A parsed affinity as a value.
pub open spec fn affinity_view(r: Result<Option<AffinitySpec>, String>) -> Result<
    Option<Seq<u8>>,
    Seq<char>,
> {
    match r {
        Ok(a) => Ok(crate::config::cores_of(a)),
        Err(e) => Err(e@),
    }
}

fn quoted(before: &str, text: &str) -> (r: String)
    ensures
        r@ == before@ + text@ + "'"@,
{
    let mut m = join2(before, text);
    m.append("'");
    m
}

fn parse_core(all: &str, part: &str) -> (r: Result<u8, String>)
    ensures
        r is Ok <==> core_in(all@, part@) is Ok,
        r is Ok ==> core_in(all@, part@) == Ok::<u8, Seq<char>>(r->Ok_0),
        r is Err ==> core_in(all@, part@) == Err::<u8, Seq<char>>(r->Err_0@),
{
    if part.is_empty() {
        return Err(quoted("empty core in '", all));
    }
    match parse_number(part, 255) {
        Some(n) => if n >= 64 {
            let mut m = join2("core ", decimal_text(n).as_str());
            m.append(" >= 64");
            Err(m)
        } else {
            Ok(n as u8)
        },
        None => Err(quoted("bad core '", part)),
    }
}

proof fn error_stays(all: Seq<char>, parts: Seq<Seq<char>>, n: int)
    requires
        0 <= n <= parts.len(),
        cores_in_parts(all, parts.take(n)) is Err,
    ensures
        cores_in_parts(all, parts) == cores_in_parts(all, parts.take(n)),
    decreases parts.len() - n,
{
    if n < parts.len() {
        assert(parts.take(n + 1).drop_last() =~= parts.take(n));
        error_stays(all, parts, n + 1);
    } else {
        assert(parts.take(n) =~= parts);
    }
}

/// Reads an affinity text.
pub fn parse_affinity(text: &str) -> (r: Result<Option<AffinitySpec>, String>)
    ensures
        affinity_view(r) == affinity_in(text@),
{
    let t = trim(text);
    if t.as_str().is_empty() {
        return Ok(None);
    }
    let parts = split_on(t.as_str(), ',');
    let ghost all = split(t@, ',');
    let mut cores: Vec<u8> = Vec::new();
    let mut i: usize = 0;
    assert(all.take(0) =~= Seq::<Seq<char>>::empty());
    assert(cores@ =~= Seq::<u8>::empty());
    while i < parts.len()
        invariant
            i <= parts@.len(),
            t@ == trimmed(text@),
            t@.len() > 0,
            all == split(t@, ','),
            texts(parts@) == all,
            cores_in_parts(t@, all.take(i as int)) == Ok::<Seq<u8>, Seq<char>>(cores@),
        decreases parts@.len() - i,
    {
        let part = trim(parts[i].as_str());
        assert(texts(parts@)[i as int] == parts@[i as int]@);
        assert(all.take(i + 1).drop_last() =~= all.take(i as int));
        match parse_core(t.as_str(), part.as_str()) {
            Ok(c) => {
                cores.push(c);
            },
            Err(e) => {
                proof {
                    error_stays(t@, all, i + 1);
                }
                return Err(e);
            },
        }
        i = i + 1;
    }
    assert(all.take(i as int) =~= all);
    Ok(Some(AffinitySpec { cores }))
}

/// The quota in a text; none in a blank one.
pub open spec fn quota_in(text: Seq<char>) -> Result<Option<u32>, Seq<char>> {
    let t = trimmed(text);
    if t.len() == 0 {
        Ok(None)
    } else {
        match number_in(t) {
            Some(n) => if n > u32::MAX {
                Err("bad number '"@ + t + "'"@)
            } else if n == 0 || n > 100 {
                Err("must be 1..=100, got "@ + decimal(n))
            } else {
                Ok(Some(n as u32))
            },
            None => Err("bad number '"@ + t + "'"@),
        }
    }
}

/// A parsed quota as a value.
pub open spec fn quota_view(r: Result<Option<u32>, String>) -> Result<Option<u32>, Seq<char>> {
    match r {
        Ok(q) => Ok(q),
        Err(e) => Err(e@),
    }
}

/// Reads a quota text.
pub fn parse_qos(text: &str) -> (r: Result<Option<u32>, String>)
    ensures
        quota_view(r) == quota_in(text@),
{
    let t = trim(text);
    if t.as_str().is_empty() {
        return Ok(None);
    }
    match parse_number(t.as_str(), 0xffff_ffff) {
        Some(n) => if n == 0 || n > 100 {
            Err(join2("must be 1..=100, got ", decimal_text(n).as_str()))
        } else {
            Ok(Some(n as u32))
        },
        None => Err(quoted("bad number '", t.as_str())),
    }
}

/// What is read from an affinity text is what a rule may hold: at least one
/// core, and none past 63.
pub proof fn read_affinity_is_allowed(text: Seq<char>)
    ensures
        affinity_in(text) is Ok && affinity_in(text)->Ok_0 is Some ==> {
            &&& affinity_in(text)->Ok_0->0.len() > 0
            &&& crate::actions::all_below_64(affinity_in(text)->Ok_0->0)
        },
{
    let t = trimmed(text);
    crate::text::split_is_never_empty(t, ',');
    cores_read_are_low(t, split(t, ','));
}

proof fn cores_read_are_low(all: Seq<char>, parts: Seq<Seq<char>>)
    ensures
        cores_in_parts(all, parts) is Ok ==> {
            &&& cores_in_parts(all, parts)->Ok_0.len() == parts.len()
            &&& crate::actions::all_below_64(cores_in_parts(all, parts)->Ok_0)
        },
    decreases parts.len(),
{
    if parts.len() > 0 {
        cores_read_are_low(all, parts.drop_last());
    }
}

/// What is read from a quota text is a percentage.
pub proof fn read_quota_is_allowed(text: Seq<char>)
    ensures
        quota_in(text) is Ok && quota_in(text)->Ok_0 is Some ==> 1 <= quota_in(text)->Ok_0->0
            <= 100,
{
}

/// A refusal that an elevated editor would not get: it speaks of elevation or of
/// an administrator.
pub open spec fn speaks_of_elevation(msg: Seq<char>) -> bool {
    contains(fold(msg), "elevat"@) || contains(fold(msg), "administrator"@)
}

pub fn needs_elevation(msg: &str) -> (r: bool)
    ensures
        r == speaks_of_elevation(msg@),
{
    let low = to_ascii_lowercase(msg);
    contains_text(low.as_str(), "elevat") || contains_text(low.as_str(), "administrator")
}

/// Cores as an affinity text.
pub open spec fn cores_text(cores: Seq<u8>) -> Seq<char>
    decreases cores.len(),
{
    if cores.len() == 0 {
        Seq::empty()
    } else if cores.len() == 1 {
        decimal(cores[0] as nat)
    } else {
        cores_text(cores.drop_last()) + ","@ + decimal(cores.last() as nat)
    }
}

/// Writes an affinity text.
pub fn affinity_text(cores: &Vec<u8>) -> (r: String)
    ensures
        r@ == cores_text(cores@),
{
    let mut r = String::new();
    let mut i: usize = 0;
    assert(r@ =~= cores_text(cores@.take(0)));
    while i < cores.len()
        invariant
            i <= cores@.len(),
            r@ == cores_text(cores@.take(i as int)),
        decreases cores@.len() - i,
    {
        assert(cores@.take(i + 1).drop_last() =~= cores@.take(i as int));
        let ghost before = r@;
        if i > 0 {
            r.append(",");
        }
        r.append(decimal_text(cores[i] as u64).as_str());
        assert(r@ =~= cores_text(cores@.take(i + 1)));
        i = i + 1;
    }
    assert(cores@.take(i as int) =~= cores@);
    r
}

proof fn cores_text_shape(cores: Seq<u8>)
    requires
        cores.len() > 0,
    ensures
        cores_text(cores).len() > 0,
        is_digit(cores_text(cores)[0]),
        is_digit(cores_text(cores).last()),
        split(cores_text(cores), ',') == cores.map_values(|c: u8| decimal(c as nat)),
    decreases cores.len(),
{
    reveal_strlit(",");
    let last = decimal(cores.last() as nat);
    decimal_is_number(cores.last() as nat);
    assert forall|i: int| 0 <= i < last.len() implies last[i] != ',' by {
        assert(is_digit(last[i]));
    }
    if cores.len() == 1 {
        split_without_separator(last, ',');
        assert(is_digit(last[0]) && is_digit(last[last.len() - 1]));
        assert(split(cores_text(cores), ',') =~= cores.map_values(|c: u8| decimal(c as nat)));
    } else {
        let head = cores.drop_last();
        cores_text_shape(head);
        split_at_last_separator(cores_text(head), last, ',');
        assert(","@ =~= seq![',']);
        assert(cores_text(cores) =~= cores_text(head).push(',') + last);
        assert(is_digit(last[last.len() - 1]));
        assert(cores_text(cores)[0] == cores_text(head)[0]);
        assert(cores_text(cores).last() == last[last.len() - 1]);
        assert(split(cores_text(cores), ',') =~= cores.map_values(|c: u8| decimal(c as nat)));
    }
}

proof fn decimals_read_back(all: Seq<char>, cores: Seq<u8>)
    requires
        crate::actions::all_below_64(cores),
    ensures
        cores_in_parts(all, cores.map_values(|c: u8| decimal(c as nat))) == Ok::<
            Seq<u8>,
            Seq<char>,
        >(cores),
    decreases cores.len(),
{
    let parts = cores.map_values(|c: u8| decimal(c as nat));
    if cores.len() == 0 {
        assert(cores =~= Seq::<u8>::empty());
    } else {
        let head = cores.drop_last();
        assert(crate::actions::all_below_64(head)) by {
            assert forall|i: int| 0 <= i < head.len() implies #[trigger] head[i] < 64 by {
                assert(head[i] == cores[i]);
            }
        }
        decimals_read_back(all, head);
        assert(parts.drop_last() =~= head.map_values(|c: u8| decimal(c as nat)));
        let c = cores[cores.len() - 1];
        decimal_is_number(c as nat);
        decimal_reads_back(c as nat);
        let d = decimal(c as nat);
        assert(is_digit(d[0]) && is_digit(d[d.len() - 1]));
        trimmed_already(d);
        assert(head.push(c) =~= cores);
    }
}

/// The affinity of a rule is read back from its text as it was.
pub proof fn affinity_text_round_trip(cores: Seq<u8>)
    requires
        cores.len() > 0,
        crate::actions::all_below_64(cores),
    ensures
        affinity_in(cores_text(cores)) == Ok::<Option<Seq<u8>>, Seq<char>>(Some(cores)),
{
    cores_text_shape(cores);
    trimmed_already(cores_text(cores));
    decimals_read_back(cores_text(cores), cores);
}

/// A quota is read back from its text as it was.
pub proof fn quota_text_round_trip(q: u32)
    requires
        1 <= q <= 100,
    ensures
        quota_in(decimal(q as nat)) == Ok::<Option<u32>, Seq<char>>(Some(q)),
{
    decimal_is_number(q as nat);
    decimal_reads_back(q as nat);
    let d = decimal(q as nat);
    assert(is_digit(d[0]) && is_digit(d[d.len() - 1]));
    trimmed_already(d);
}

/// A refusal speaks of elevation where `elevat` or `administrator` stands in it, in any ASCII
/// case.
pub proof fn refusals_that_speak_of_elevation(msg: Seq<char>)
    ensures
        speaks_of_elevation(msg) <==> named_in("elevat"@, msg) || named_in("administrator"@, msg),
{
    named_means("elevat"@, msg);
    named_means("administrator"@, msg);
    reveal_strlit("elevat");
    reveal_strlit("administrator");
    assert(fold("elevat"@) =~= "elevat"@);
    assert(fold("administrator"@) =~= "administrator"@);
}

} // verus!
