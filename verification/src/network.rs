//! Reversible network tweaks, applied when game mode is entered and reverted
//! when it is left.
//!
//! - Nagle: `TcpAckFrequency` and `TCPNoDelay` are set to 1 on every TCP/IP
//!   interface.
//! - NetBIOS: `DisableNetbiosOverTcpip` is set to 2.
//!
//! Each value is read before it is written, so that it can be put back. What was
//! changed is also kept in a marker file, from which a later start can put it
//! back after a crash.

use vstd::prelude::*;
use vstd::utf8::encode_utf8;

use crate::actions::{added, calls_added, extends, BackendCall, ProcessBackend, QosLifecycle};
use crate::bytes::le_bytes;
use crate::text::{copy_text, join2, texts};

verus! {

/// The registry key of the TCP/IP interfaces.
pub const TCPIP_INTERFACES_KEY: &'static str =
    "SYSTEM\\CurrentControlSet\\Services\\Tcpip\\Parameters\\Interfaces";

/// The registry key of NetBIOS over TCP/IP.
pub const NETBT_PARAMETERS_KEY: &'static str =
    "SYSTEM\\CurrentControlSet\\Services\\NetBT\\Parameters";

/// A registry value as it was before a tweak; `old` is `None` where the value
/// did not exist.
#[derive(Debug, PartialEq, Eq)]
pub struct BackupEntry {
    pub path: String,
    pub value_name: String,
    pub old: Option<u32>,
}

/// A backup entry as a value.
pub struct EntryView {
    pub path: Seq<char>,
    pub value_name: Seq<char>,
    pub old: Option<u32>,
}

impl View for BackupEntry {
    type V = EntryView;

    open spec fn view(&self) -> EntryView {
        EntryView { path: self.path@, value_name: self.value_name@, old: self.old }
    }
}

impl Clone for BackupEntry {
    fn clone(&self) -> (r: Self)
        ensures
            r@ == self@,
    {
        BackupEntry {
            path: self.path.clone(),
            value_name: self.value_name.clone(),
            old: self.old,
        }
    }
}

/// A backup as a value.
pub open spec fn backup_view(entries: Seq<BackupEntry>) -> Seq<EntryView> {
    entries.map_values(|e: BackupEntry| e@)
}

/// A value to be set.
#[derive(Debug)]
pub struct Tweak {
    pub path: String,
    pub value_name: String,
    pub set_to: u32,
}

/// A tweak as a value.
pub struct TweakView {
    pub path: Seq<char>,
    pub value_name: Seq<char>,
    pub set_to: u32,
}

impl View for Tweak {
    type V = TweakView;

    open spec fn view(&self) -> TweakView {
        TweakView { path: self.path@, value_name: self.value_name@, set_to: self.set_to }
    }
}

/// Tweaks as values.
pub open spec fn tweak_views(tweaks: Seq<Tweak>) -> Seq<TweakView> {
    tweaks.map_values(|t: Tweak| t@)
}

/// The tweaks for one interface.
pub open spec fn adapter_tweaks(interfaces: Seq<char>, adapter: Seq<char>) -> Seq<TweakView> {
    let path = interfaces + "\\"@ + adapter;
    seq![
        TweakView { path, value_name: "TcpAckFrequency"@, set_to: 1 },
        TweakView { path, value_name: "TCPNoDelay"@, set_to: 1 },
    ]
}

/// The tweaks for the first interfaces, in order.
pub open spec fn nagle_tweaks(interfaces: Seq<char>, adapters: Seq<Seq<char>>) -> Seq<TweakView>
    decreases adapters.len(),
{
    if adapters.len() == 0 {
        Seq::empty()
    } else {
        nagle_tweaks(interfaces, adapters.drop_last()) + adapter_tweaks(interfaces, adapters.last())
    }
}

/// The tweak for NetBIOS.
pub open spec fn netbios_tweak(netbt: Seq<char>) -> TweakView {
    TweakView { path: netbt, value_name: "DisableNetbiosOverTcpip"@, set_to: 2 }
}

/// All tweaks that are asked for, in the order they are made.
pub open spec fn tweaks_for(
    interfaces: Seq<char>,
    netbt: Seq<char>,
    nagle: bool,
    netbios: bool,
    adapters: Seq<Seq<char>>,
) -> Seq<TweakView> {
    let first = if nagle {
        nagle_tweaks(interfaces, adapters)
    } else {
        Seq::empty()
    };
    if netbios {
        first.push(netbios_tweak(netbt))
    } else {
        first
    }
}

/// The tweaks to make under the given keys. `adapters` are the names of the
/// interfaces found there; without any, the Nagle tweaks cannot be made.
pub fn plan_tweaks_at(
    interfaces: &str,
    netbt: &str,
    nagle: bool,
    netbios: bool,
    adapters: &Vec<String>,
) -> (r: Result<Vec<Tweak>, String>)
    ensures
        r is Err <==> nagle && adapters@.len() == 0,
        r is Err ==> r->Err_0@
            == "no TCP/IP interface adapters found under Tcpip\\Parameters\\Interfaces"@,
        r is Ok ==> tweak_views(r->Ok_0@) == tweaks_for(
            interfaces@,
            netbt@,
            nagle,
            netbios,
            texts(adapters@),
        ),
{
    let mut tweaks: Vec<Tweak> = Vec::new();
    if nagle {
        if adapters.len() == 0 {
            return Err(
                copy_text(
                    "no TCP/IP interface adapters found under Tcpip\\Parameters\\Interfaces",
                ),
            );
        }
        let ghost names = texts(adapters@);
        let mut i: usize = 0;
        assert(tweak_views(tweaks@) =~= nagle_tweaks(interfaces@, names.take(0)));
        while i < adapters.len()
            invariant
                i <= adapters@.len(),
                names == texts(adapters@),
                tweak_views(tweaks@) == nagle_tweaks(interfaces@, names.take(i as int)),
            decreases adapters@.len() - i,
        {
            let ghost before = tweaks@;
            let mut path = join2(interfaces, "\\");
            path.append(adapters[i].as_str());
            tweaks.push(
                Tweak {
                    path: path.clone(),
                    value_name: copy_text("TcpAckFrequency"),
                    set_to: 1,
                },
            );
            tweaks.push(Tweak { path, value_name: copy_text("TCPNoDelay"), set_to: 1 });
            assert(names.take(i + 1).drop_last() =~= names.take(i as int));
            assert(tweak_views(tweaks@) =~= tweak_views(before) + adapter_tweaks(
                interfaces@,
                names[i as int],
            ));
            i = i + 1;
        }
        assert(names.take(i as int) =~= names);
    } else {
        assert(tweak_views(tweaks@) =~= Seq::<TweakView>::empty());
    }
    if netbios {
        let ghost before = tweaks@;
        tweaks.push(
            Tweak {
                path: copy_text(netbt),
                value_name: copy_text("DisableNetbiosOverTcpip"),
                set_to: 2,
            },
        );
        assert(tweak_views(tweaks@) =~= tweak_views(before).push(netbios_tweak(netbt@)));
    }
    Ok(tweaks)
}

/// The tweaks to make on this system.
pub fn plan_tweaks(nagle: bool, netbios: bool, adapters: &Vec<String>) -> (r: Result<
    Vec<Tweak>,
    String,
>)
    ensures
        r is Err <==> nagle && adapters@.len() == 0,
        r is Err ==> r->Err_0@
            == "no TCP/IP interface adapters found under Tcpip\\Parameters\\Interfaces"@,
        r is Ok ==> tweak_views(r->Ok_0@) == tweaks_for(
            TCPIP_INTERFACES_KEY@,
            NETBT_PARAMETERS_KEY@,
            nagle,
            netbios,
            texts(adapters@),
        ),
{
    plan_tweaks_at(TCPIP_INTERFACES_KEY, NETBT_PARAMETERS_KEY, nagle, netbios, adapters)
}

/// The tweaks are those that are asked for and no other: NetBIOS is switched off exactly
/// where that is asked for, whatever is asked of Nagle; and for each interface the two
/// Nagle values are set exactly where that is asked for, whatever is asked of NetBIOS.
#[verifier::rlimit(40)]
pub proof fn tweaks_are_those_asked_for(
    interfaces: Seq<char>,
    netbt: Seq<char>,
    nagle: bool,
    netbios: bool,
    adapters: Seq<Seq<char>>,
)
    ensures
        forall|t: TweakView| #[trigger]
            tweaks_for(interfaces, netbt, nagle, netbios, adapters).contains(t) <==> {
                ||| netbios && t.path == netbt && t.value_name == "DisableNetbiosOverTcpip"@
                    && t.set_to == 2
                ||| nagle && t.set_to == 1 && (t.value_name == "TcpAckFrequency"@ || t.value_name
                    == "TCPNoDelay"@) && exists|i: int|
                    0 <= i < adapters.len() && t.path == interfaces + "\\"@
                        + #[trigger] adapters[i]
            },
        tweaks_for(interfaces, netbt, nagle, netbios, adapters).len() == (if nagle {
            2 * adapters.len()
        } else {
            0
        }) + (if netbios {
            1int
        } else {
            0
        }),
{
    let all = tweaks_for(interfaces, netbt, nagle, netbios, adapters);
    let first = if nagle {
        nagle_tweaks(interfaces, adapters)
    } else {
        Seq::empty()
    };
    nagle_tweaks_shape(interfaces, adapters);
    assert forall|t: TweakView| #[trigger] all.contains(t) implies {
        ||| netbios && t.path == netbt && t.value_name == "DisableNetbiosOverTcpip"@ && t.set_to
            == 2
        ||| nagle && t.set_to == 1 && (t.value_name == "TcpAckFrequency"@ || t.value_name
            == "TCPNoDelay"@) && exists|i: int|
            0 <= i < adapters.len() && t.path == interfaces + "\\"@ + #[trigger] adapters[i]
    } by {
        let k = choose|k: int| 0 <= k < all.len() && all[k] == t;
        if k < first.len() {
            let a = adapters[k / 2];
            assert(first[2 * (k / 2)] == adapter_tweaks(interfaces, a)[0]);
            assert(first[2 * (k / 2) + 1] == adapter_tweaks(interfaces, a)[1]);
            assert(t.path == interfaces + "\\"@ + adapters[k / 2]);
        }
    }
    if netbios {
        assert(all[first.len() as int] == netbios_tweak(netbt));
    }
    assert forall|t: TweakView, i: int|
        nagle && t.set_to == 1 && (t.value_name == "TcpAckFrequency"@ || t.value_name
            == "TCPNoDelay"@) && 0 <= i < adapters.len() && t.path == interfaces + "\\"@
            + #[trigger] adapters[i] implies #[trigger] all.contains(t) by {
        assert(first[2 * i] == adapter_tweaks(interfaces, adapters[i])[0]);
        assert(first[2 * i + 1] == adapter_tweaks(interfaces, adapters[i])[1]);
        if t.value_name == "TcpAckFrequency"@ {
            assert(all[2 * i] == t);
        } else {
            assert(all[2 * i + 1] == t);
        }
    }
    assert forall|t: TweakView|
        netbios && t.path == netbt && t.value_name == "DisableNetbiosOverTcpip"@ && t.set_to
            == 2 implies #[trigger] all.contains(t) by {
        assert(all[first.len() as int] == t);
    }
}

// ---------------------------------------------------------------------------
// Backups
// ---------------------------------------------------------------------------
/// What came of a tweak.
#[derive(Debug, Clone, Copy)]
pub enum TweakOutcome {
    /// The value was read as `old` and then set.
    Done { old: Option<u32> },
    /// The value could not be read or not be set: it was left as it was.
    Skipped,
}

/// The backup of the tweaks that were made, in order.
pub open spec fn backup_of(
    tweaks: Seq<TweakView>,
    outcomes: Seq<TweakOutcome>,
) -> Seq<EntryView>
    decreases tweaks.len(),
{
    if tweaks.len() == 0 {
        Seq::empty()
    } else {
        let before = backup_of(tweaks.drop_last(), outcomes.drop_last());
        match outcomes.last() {
            TweakOutcome::Done { old } => before.push(
                EntryView { path: tweaks.last().path, value_name: tweaks.last().value_name, old },
            ),
            TweakOutcome::Skipped => before,
        }
    }
}

/// Collects the backup: an entry for each value that was set, and for no other.
pub fn collect_backup(tweaks: &Vec<Tweak>, outcomes: &Vec<TweakOutcome>) -> (r: Vec<BackupEntry>)
    requires
        tweaks@.len() == outcomes@.len(),
    ensures
        backup_view(r@) == backup_of(tweak_views(tweaks@), outcomes@),
{
    let ghost all = tweak_views(tweaks@);
    let mut r: Vec<BackupEntry> = Vec::new();
    let mut i: usize = 0;
    assert(backup_view(r@) =~= backup_of(all.take(0), outcomes@.take(0)));
    while i < tweaks.len()
        invariant
            i <= tweaks@.len(),
            tweaks@.len() == outcomes@.len(),
            all == tweak_views(tweaks@),
            backup_view(r@) == backup_of(all.take(i as int), outcomes@.take(i as int)),
        decreases tweaks@.len() - i,
    {
        assert(all.take(i + 1).drop_last() =~= all.take(i as int));
        assert(outcomes@.take(i + 1).drop_last() =~= outcomes@.take(i as int));
        let t = &tweaks[i];
        if let TweakOutcome::Done { old } = outcomes[i] {
            let ghost before = r@;
            r.push(
                BackupEntry { path: t.path.clone(), value_name: t.value_name.clone(), old },
            );
            assert(backup_view(r@) =~= backup_view(before).push(
                EntryView { path: t.path@, value_name: t.value_name@, old },
            ));
        }
        i = i + 1;
    }
    assert(all.take(i as int) =~= all);
    assert(outcomes@.take(i as int) =~= outcomes@);
    r
}

/// How an entry is put back.
#[derive(Debug, Clone, Copy, PartialEq, Eq, Structural)]
pub enum RevertStep {
    /// Write this number.
    Write(u32),
    /// Delete the value.
    Delete,
}

/// The old number is written; a value that did not exist is deleted.
pub open spec fn revert_step_spec(old: Option<u32>) -> RevertStep {
    match old {
        Some(v) => RevertStep::Write(v),
        None => RevertStep::Delete,
    }
}

pub fn revert_step(entry: &BackupEntry) -> (r: RevertStep)
    ensures
        r == revert_step_spec(entry@.old),
{
    match entry.old {
        Some(v) => RevertStep::Write(v),
        None => RevertStep::Delete,
    }
}

/// How often `true` stands in a list.
pub open spec fn true_count(done: Seq<bool>) -> nat
    decreases done.len(),
{
    if done.len() == 0 {
        0
    } else {
        true_count(done.drop_last()) + if done.last() {
            1nat
        } else {
            0nat
        }
    }
}

/// Each of the first `n` answers is a yes.
pub open spec fn all_done(done: Seq<bool>, n: nat) -> bool {
    forall|i: int| 0 <= i < n ==> #[trigger] done[i]
}

/// All answers are a yes exactly when as many are as there are.
pub proof fn all_counted(done: Seq<bool>)
    ensures
        true_count(done) <= done.len(),
        true_count(done) == done.len() <==> all_done(done, done.len()),
    decreases done.len(),
{
    if done.len() > 0 {
        let head = done.drop_last();
        all_counted(head);
        if all_done(done, done.len()) {
            assert(done[done.len() - 1]);
            assert forall|i: int| 0 <= i < head.len() implies #[trigger] head[i] by {
                assert(done[i]);
            }
        }
        if true_count(done) == done.len() {
            assert forall|i: int| 0 <= i < done.len() implies #[trigger] done[i] by {
                if i < head.len() {
                    assert(head[i]);
                }
            }
        }
    }
}

/// The number of entries that were put back.
pub fn reverted_count(done: &Vec<bool>) -> (r: usize)
    ensures
        r == true_count(done@),
{
    let mut n: usize = 0;
    let mut i: usize = 0;
    while i < done.len()
        invariant
            n <= i <= done@.len(),
            n == true_count(done@.take(i as int)),
        decreases done@.len() - i,
    {
        assert(done@.take(i + 1).drop_last() =~= done@.take(i as int));
        if done[i] {
            n = n + 1;
        }
        i = i + 1;
    }
    assert(done@.take(i as int) =~= done@);
    n
}

/// A backup that was put back in full leaves nothing for a later start to do:
/// only then is the marker removed.
pub fn marker_is_stale(backup_len: usize, reverted: usize) -> (r: bool)
    ensures
        r == (reverted == backup_len),
{
    reverted == backup_len
}

// ---------------------------------------------------------------------------
// The registry as a value
// ---------------------------------------------------------------------------
/// Numbers by path and name.
pub type Registry = Map<(Seq<char>, Seq<char>), u32>;

/// A value, where there is one.
pub open spec fn lookup(r: Registry, path: Seq<char>, name: Seq<char>) -> Option<u32> {
    if r.contains_key((path, name)) {
        Some(r[(path, name)])
    } else {
        None
    }
}

/// The registry after some tweaks, of which the skipped ones changed nothing.
pub open spec fn tweaked(r: Registry, tweaks: Seq<TweakView>, outcomes: Seq<TweakOutcome>) -> Registry
    decreases tweaks.len(),
{
    if tweaks.len() == 0 {
        r
    } else {
        let before = tweaked(r, tweaks.drop_last(), outcomes.drop_last());
        match outcomes.last() {
            TweakOutcome::Done { old: _ } => before.insert(
                (tweaks.last().path, tweaks.last().value_name),
                tweaks.last().set_to,
            ),
            TweakOutcome::Skipped => before,
        }
    }
}

/// The outcomes report what the registry held.
pub open spec fn outcomes_true_of(
    r: Registry,
    tweaks: Seq<TweakView>,
    outcomes: Seq<TweakOutcome>,
) -> bool {
    &&& outcomes.len() == tweaks.len()
    &&& forall|i: int|
        0 <= i < tweaks.len() ==> match #[trigger] outcomes[i] {
            TweakOutcome::Done { old } => old == lookup(
                tweaked(r, tweaks.take(i), outcomes.take(i)),
                tweaks[i].path,
                tweaks[i].value_name,
            ),
            TweakOutcome::Skipped => true,
        }
}

/// The registry after an entry was put back.
pub open spec fn put_back(r: Registry, e: EntryView) -> Registry {
    match revert_step_spec(e.old) {
        RevertStep::Write(v) => r.insert((e.path, e.value_name), v),
        RevertStep::Delete => r.remove((e.path, e.value_name)),
    }
}

/// The registry after a backup was put back, first entry first.
pub open spec fn reverted(r: Registry, backup: Seq<EntryView>) -> Registry
    decreases backup.len(),
{
    if backup.len() == 0 {
        r
    } else {
        put_back(reverted(r, backup.drop_last()), backup.last())
    }
}

/// No two tweaks are of the same value.
pub open spec fn distinct_targets(tweaks: Seq<TweakView>) -> bool {
    forall|i: int, j: int|
        0 <= i < j < tweaks.len() ==> (#[trigger] tweaks[i]).path != (#[trigger] tweaks[j]).path
            || tweaks[i].value_name != tweaks[j].value_name
}

/// The registry key and name of an entry.
pub open spec fn key_of(e: EntryView) -> (Seq<char>, Seq<char>) {
    (e.path, e.value_name)
}

proof fn putting_back_leaves_others(
    r: Registry,
    key: (Seq<char>, Seq<char>),
    v: u32,
    backup: Seq<EntryView>,
)
    requires
        forall|i: int| 0 <= i < backup.len() ==> key_of(#[trigger] backup[i]) != key,
    ensures
        reverted(r.insert(key, v), backup) == reverted(r, backup).insert(key, v),
    decreases backup.len(),
{
    if backup.len() > 0 {
        let head = backup.drop_last();
        assert forall|i: int| 0 <= i < head.len() implies key_of(#[trigger] head[i]) != key by {
            assert(head[i] == backup[i]);
        }
        putting_back_leaves_others(r, key, v, head);
        let e = backup.last();
        assert(key_of(backup[backup.len() - 1]) != key);
        assert(put_back(reverted(r, head).insert(key, v), e) =~= put_back(
            reverted(r, head),
            e,
        ).insert(key, v));
    }
}

proof fn backup_entry_has_tweak(
    tweaks: Seq<TweakView>,
    outcomes: Seq<TweakOutcome>,
    i: int,
) -> (j: int)
    requires
        outcomes.len() == tweaks.len(),
        0 <= i < backup_of(tweaks, outcomes).len(),
    ensures
        0 <= j < tweaks.len(),
        key_of(backup_of(tweaks, outcomes)[i]) == (tweaks[j].path, tweaks[j].value_name),
    decreases tweaks.len(),
{
    let before = backup_of(tweaks.drop_last(), outcomes.drop_last());
    if i < before.len() {
        let j = backup_entry_has_tweak(tweaks.drop_last(), outcomes.drop_last(), i);
        assert(tweaks.drop_last()[j] == tweaks[j]);
        assert(backup_of(tweaks, outcomes)[i] == before[i]);
        j
    } else {
        tweaks.len() - 1
    }
}

proof fn tweaks_leave_others(
    r: Registry,
    tweaks: Seq<TweakView>,
    outcomes: Seq<TweakOutcome>,
    path: Seq<char>,
    name: Seq<char>,
)
    requires
        outcomes.len() == tweaks.len(),
        forall|i: int|
            0 <= i < tweaks.len() ==> (#[trigger] tweaks[i]).path != path || tweaks[i].value_name
                != name,
    ensures
        lookup(tweaked(r, tweaks, outcomes), path, name) == lookup(r, path, name),
    decreases tweaks.len(),
{
    if tweaks.len() > 0 {
        let head = tweaks.drop_last();
        assert forall|i: int| 0 <= i < head.len() implies (#[trigger] head[i]).path != path
            || head[i].value_name != name by {
            assert(head[i] == tweaks[i]);
        }
        tweaks_leave_others(r, head, outcomes.drop_last(), path, name);
        assert(tweaks[tweaks.len() - 1] == tweaks.last());
    }
}

/// Reverting undoes tweaking. Whichever tweaks were skipped, putting back the
/// backup of those that were made gives the registry from before, value by
/// value, also where a value did not exist.
pub proof fn revert_undoes_tweaks(
    r: Registry,
    tweaks: Seq<TweakView>,
    outcomes: Seq<TweakOutcome>,
)
    requires
        distinct_targets(tweaks),
        outcomes_true_of(r, tweaks, outcomes),
    ensures
        reverted(tweaked(r, tweaks, outcomes), backup_of(tweaks, outcomes)) == r,
    decreases tweaks.len(),
{
    if tweaks.len() > 0 {
        let n = tweaks.len() - 1;
        let head = tweaks.drop_last();
        let ho = outcomes.drop_last();
        let t = tweaks[n];
        assert(head =~= tweaks.take(n));
        assert(ho =~= outcomes.take(n));
        assert(distinct_targets(head)) by {
            assert forall|i: int, j: int| 0 <= i < j < head.len() implies (#[trigger] head[i]).path
                != (#[trigger] head[j]).path || head[i].value_name != head[j].value_name by {
                assert(head[i] == tweaks[i] && head[j] == tweaks[j]);
            }
        }
        assert(outcomes_true_of(r, head, ho)) by {
            assert forall|i: int| 0 <= i < head.len() implies match #[trigger] ho[i] {
                TweakOutcome::Done { old } => old == lookup(
                    tweaked(r, head.take(i), ho.take(i)),
                    head[i].path,
                    head[i].value_name,
                ),
                TweakOutcome::Skipped => true,
            } by {
                assert(head.take(i) =~= tweaks.take(i));
                assert(ho.take(i) =~= outcomes.take(i));
                assert(ho[i] == outcomes[i]);
            }
        }
        revert_undoes_tweaks(r, head, ho);
        let x = tweaked(r, head, ho);
        let b = backup_of(head, ho);
        let key = (t.path, t.value_name);
        assert forall|i: int| 0 <= i < b.len() implies key_of(#[trigger] b[i]) != key by {
            let j = backup_entry_has_tweak(head, ho, i);
            assert(head[j] == tweaks[j]);
            assert(tweaks[j].path != tweaks[n].path || tweaks[j].value_name
                != tweaks[n].value_name);
        }
        assert forall|i: int| 0 <= i < head.len() implies (#[trigger] head[i]).path != t.path
            || head[i].value_name != t.value_name by {
            assert(head[i] == tweaks[i]);
            assert(tweaks[i].path != tweaks[n].path || tweaks[i].value_name
                != tweaks[n].value_name);
        }
        tweaks_leave_others(r, head, ho, t.path, t.value_name);
        match outcomes[n] {
            TweakOutcome::Done { old } => {
                let e = EntryView { path: t.path, value_name: t.value_name, old };
                putting_back_leaves_others(x, key, t.set_to, b);
                assert(backup_of(tweaks, outcomes) == b.push(e));
                assert(b.push(e).drop_last() =~= b);
                assert(tweaked(r, tweaks, outcomes) == x.insert(key, t.set_to));
                assert(put_back(r.insert(key, t.set_to), e) =~= r);
            },
            TweakOutcome::Skipped => {},
        }
    } else {
        assert(backup_of(tweaks, outcomes) =~= Seq::<EntryView>::empty());
    }
}

proof fn nagle_tweaks_shape(interfaces: Seq<char>, adapters: Seq<Seq<char>>)
    ensures
        nagle_tweaks(interfaces, adapters).len() == 2 * adapters.len(),
        forall|i: int|
            0 <= i < adapters.len() ==> {
                &&& nagle_tweaks(interfaces, adapters)[2 * i] == adapter_tweaks(
                    interfaces,
                    #[trigger] adapters[i],
                )[0]
                &&& nagle_tweaks(interfaces, adapters)[2 * i + 1] == adapter_tweaks(
                    interfaces,
                    adapters[i],
                )[1]
            },
    decreases adapters.len(),
{
    if adapters.len() > 0 {
        nagle_tweaks_shape(interfaces, adapters.drop_last());
        let head = nagle_tweaks(interfaces, adapters.drop_last());
        let all = nagle_tweaks(interfaces, adapters);
        assert forall|i: int| 0 <= i < adapters.len() implies {
            &&& all[2 * i] == adapter_tweaks(interfaces, #[trigger] adapters[i])[0]
            &&& all[2 * i + 1] == adapter_tweaks(interfaces, adapters[i])[1]
        } by {
            if i < adapters.len() - 1 {
                assert(adapters.drop_last()[i] == adapters[i]);
                assert(all[2 * i] == head[2 * i]);
                assert(all[2 * i + 1] == head[2 * i + 1]);
            }
        }
    }
}

/// On interfaces with distinct names, no value is tweaked twice.
pub proof fn tweaks_are_distinct(
    interfaces: Seq<char>,
    netbt: Seq<char>,
    nagle: bool,
    netbios: bool,
    adapters: Seq<Seq<char>>,
)
    requires
        adapters.no_duplicates(),
    ensures
        distinct_targets(tweaks_for(interfaces, netbt, nagle, netbios, adapters)),
{
    reveal_strlit("TcpAckFrequency");
    reveal_strlit("TCPNoDelay");
    reveal_strlit("DisableNetbiosOverTcpip");
    nagle_tweaks_shape(interfaces, adapters);
    let n = nagle_tweaks(interfaces, adapters);
    let all = tweaks_for(interfaces, netbt, nagle, netbios, adapters);
    assert("TcpAckFrequency"@.len() == 15);
    assert("TCPNoDelay"@.len() == 10);
    assert("DisableNetbiosOverTcpip"@.len() == 23);
    assert forall|i: int, j: int| 0 <= i < j < all.len() implies (#[trigger] all[i]).path != (
    #[trigger] all[j]).path || all[i].value_name != all[j].value_name by {
        let ka = i / 2;
        let kb = j / 2;
        if nagle && i < n.len() {
            assert(n[2 * ka] == adapter_tweaks(interfaces, adapters[ka])[0]);
            assert(all[i] == n[i]);
            assert(i == 2 * ka || i == 2 * ka + 1);
            if j < n.len() {
                assert(n[2 * kb] == adapter_tweaks(interfaces, adapters[kb])[0]);
                assert(all[j] == n[j]);
                assert(j == 2 * kb || j == 2 * kb + 1);
                if ka != kb {
                    let pa = interfaces + "\\"@ + adapters[ka];
                    let pb = interfaces + "\\"@ + adapters[kb];
                    let cut = (interfaces + "\\"@).len() as int;
                    if pa == pb {
                        assert(pa.skip(cut) =~= adapters[ka]);
                        assert(pb.skip(cut) =~= adapters[kb]);
                    }
                }
            }
        }
    }
}

// ---------------------------------------------------------------------------
// The marker
// ---------------------------------------------------------------------------
/// An entry as the marker file holds it.
pub type Triple = (Seq<char>, Seq<char>, Option<u32>);

/// A text in a marker: the number of its bytes, then the bytes.
pub open spec fn text_layout(s: Seq<char>) -> Seq<u8> {
    le_bytes(encode_utf8(s).len(), 8) + encode_utf8(s)
}

/// An optional number in a marker: 0, or 1 and the number.
pub open spec fn number_layout(n: Option<u32>) -> Seq<u8> {
    match n {
        None => seq![0u8],
        Some(v) => seq![1u8] + le_bytes(v as nat, 4),
    }
}

/// The entries of a marker one after the other.
pub open spec fn triples_layout(entries: Seq<Triple>) -> Seq<u8>
    decreases entries.len(),
{
    if entries.len() == 0 {
        Seq::empty()
    } else {
        triples_layout(entries.drop_last()) + text_layout(entries.last().0) + text_layout(
            entries.last().1,
        ) + number_layout(entries.last().2)
    }
}

/// A marker: the number of entries, then the entries.
pub open spec fn marker_layout(entries: Seq<Triple>) -> Seq<u8> {
    le_bytes(entries.len(), 8) + triples_layout(entries)
}

/// What can be read from the bytes of a marker, if anything.
pub uninterp spec fn marker_reading(bytes: Seq<u8>) -> Option<Seq<Triple>>;

/// The error of the `bincode` crate.
#[verifier::external_type_specification]
#[verifier::external_body]
pub struct ExErrorKind(bincode::ErrorKind);

/// Triples as values.
pub open spec fn triple_views(v: Seq<(String, String, Option<u32>)>) -> Seq<Triple> {
    v.map_values(|t: (String, String, Option<u32>)| (t.0@, t.1@, t.2))
}

/// What was read, without the reason of a failure.
pub open spec fn read_triples(
    r: Result<Vec<(String, String, Option<u32>)>, Box<bincode::ErrorKind>>,
) -> Option<Seq<Triple>> {
    match r {
        Ok(v) => Some(triple_views(v@)),
        Err(_) => None,
    }
}

/// `bincode::serialize` on a list of triples: it succeeds, and gives the number
/// of triples and then each one, numbers in fixed-width little-endian form and
/// texts with the number of their bytes before them.
#[verifier::external_body]
fn serialize_triples(v: &Vec<(String, String, Option<u32>)>) -> (r: Result<
    Vec<u8>,
    Box<bincode::ErrorKind>,
>)
    ensures
        r is Ok,
        r->Ok_0@ == marker_layout(triple_views(v@)),
{
    bincode::serialize(v)
}

/// `bincode::deserialize` of a list of triples: a function of the bytes, which
/// gives back what was serialized, whatever follows it. What it makes of other
/// bytes is not stated.
#[verifier::external_body]
fn deserialize_triples(bytes: &[u8]) -> (r: Result<
    Vec<(String, String, Option<u32>)>,
    Box<bincode::ErrorKind>,
>)
    ensures
        read_triples(r) == marker_reading(bytes@),
        forall|e: Seq<Triple>| #[trigger]
            marker_layout(e).is_prefix_of(bytes@) ==> read_triples(r) == Some(e),
{
    bincode::deserialize(bytes)
}

/// A backup as triples.
pub open spec fn as_triples(backup: Seq<EntryView>) -> Seq<Triple> {
    backup.map_values(|e: EntryView| (e.path, e.value_name, e.old))
}

/// The bytes of the marker for a backup. A backup without entries has none.
pub fn encode_marker(entries: &Vec<BackupEntry>) -> (r: Result<Vec<u8>, String>)
    ensures
        r is Err <==> entries@.len() == 0,
        r is Err ==> r->Err_0@ == "write_marker: refusing to persist an empty backup"@,
        r is Ok ==> r->Ok_0@ == marker_layout(as_triples(backup_view(entries@))),
{
    if entries.len() == 0 {
        return Err(copy_text("write_marker: refusing to persist an empty backup"));
    }
    let mut v: Vec<(String, String, Option<u32>)> = Vec::new();
    let mut i: usize = 0;
    while i < entries.len()
        invariant
            i <= entries@.len(),
            v@.len() == i,
            forall|k: int|
                0 <= k < i ==> (#[trigger] v@[k]).0@ == entries@[k].path@ && v@[k].1@
                    == entries@[k].value_name@ && v@[k].2 == entries@[k].old,
        decreases entries@.len() - i,
    {
        let e = &entries[i];
        v.push((e.path.clone(), e.value_name.clone(), e.old));
        i = i + 1;
    }
    assert(triple_views(v@) =~= as_triples(backup_view(entries@)));
    match serialize_triples(&v) {
        Ok(bytes) => Ok(bytes),
        Err(_) => vstd::pervasive::unreached(),
    }
}

/// The backup that triples stand for.
pub open spec fn from_triples(triples: Seq<Triple>) -> Seq<EntryView> {
    triples.map_values(|t: Triple| EntryView { path: t.0, value_name: t.1, old: t.2 })
}

/// The backup that triples read from a marker stand for.
pub fn backup_from_triples(v: &Vec<(String, String, Option<u32>)>) -> (r: Vec<BackupEntry>)
    ensures
        backup_view(r@) == from_triples(triple_views(v@)),
{
    let mut r: Vec<BackupEntry> = Vec::new();
    let mut i: usize = 0;
    while i < v.len()
        invariant
            i <= v@.len(),
            r@.len() == i,
            forall|k: int|
                0 <= k < i ==> (#[trigger] r@[k]).path@ == v@[k].0@ && r@[k].value_name@
                    == v@[k].1@ && r@[k].old == v@[k].2,
        decreases v@.len() - i,
    {
        let t = &v[i];
        r.push(BackupEntry { path: t.0.clone(), value_name: t.1.clone(), old: t.2 });
        i = i + 1;
    }
    assert(backup_view(r@) =~= from_triples(triple_views(v@)));
    r
}

/// The backup in the bytes of a marker; nothing where they cannot be read. What
/// [`encode_marker`] wrote is read back as it was.
pub fn decode_marker(bytes: &[u8]) -> (r: Option<Vec<BackupEntry>>)
    ensures
        r is Some <==> marker_reading(bytes@) is Some,
        r is Some ==> backup_view(r->0@) == from_triples(marker_reading(bytes@)->0),
        forall|b: Seq<EntryView>|
            bytes@ == #[trigger] marker_layout(as_triples(b)) ==> r is Some && backup_view(r->0@)
                == b,
{
    let read = deserialize_triples(bytes);
    proof {
        assert forall|b: Seq<EntryView>|
            bytes@ == #[trigger] marker_layout(as_triples(b)) implies read_triples(read) == Some(
            as_triples(b),
        ) && from_triples(as_triples(b)) == b by {
            assert(marker_layout(as_triples(b)).is_prefix_of(bytes@));
            assert(from_triples(as_triples(b)) =~= b);
        }
    }
    match read {
        Ok(v) => Some(backup_from_triples(&v)),
        Err(_) => None,
    }
}

/// The backup in a marker file; nothing where there is none or it cannot be read.
pub open spec fn marker_backup(file: Option<Seq<u8>>) -> Option<Seq<EntryView>> {
    match file {
        Some(bytes) => match marker_reading(bytes) {
            Some(triples) => Some(from_triples(triples)),
            None => None,
        },
        None => None,
    }
}

/// `found` is the backup in a marker file; in one that was written for a backup
/// it is that backup.
pub open spec fn found_in_marker(
    file: Option<Seq<u8>>,
    found: Option<Seq<EntryView>>,
) -> bool {
    &&& found == marker_backup(file)
    &&& forall|b: Seq<EntryView>|
        file == Some(#[trigger] marker_layout(as_triples(b))) ==> found == Some(b)
}

/// The calls that put back what a marker lists: the marker is read, and if a
/// backup is found in it, exactly that is put back and the marker is deleted.
pub open spec fn reconciles(
    path: Seq<char>,
    file: Option<Seq<u8>>,
    found: Option<Seq<EntryView>>,
    done: Seq<bool>,
    calls: Seq<BackendCall>,
) -> bool {
    let read = BackendCall::ReadMarker { path, file };
    &&& found_in_marker(file, found)
    &&& calls == match found {
        Some(backup) => seq![
            read,
            BackendCall::RevertNetwork { backup, worked: done },
            BackendCall::RemoveMarker { path },
        ],
        None => seq![read],
    }
}

/// Puts back, at a start after a crash, what the marker lists, and deletes the
/// marker. Without a marker, or with one that cannot be read, nothing is touched.
pub fn reconcile<B: ProcessBackend + QosLifecycle>(backend: &mut B, path: &str)
    ensures
        extends(old(backend).calls(), final(backend).calls()),
        exists|file: Option<Seq<u8>>, found: Option<Seq<EntryView>>, done: Seq<bool>| #[trigger]
            reconciles(
                path@,
                file,
                found,
                done,
                added(old(backend).calls(), final(backend).calls()),
            ),
{
    let ghost start = backend.calls();
    let file = backend.read_marker(path);
    let ghost reply = crate::actions::bytes_reply(file);
    let ghost read = BackendCall::ReadMarker { path: path@, file: reply };
    let found = match file {
        Some(bytes) => decode_marker(bytes.as_slice()),
        None => None,
    };
    match found {
        Some(backup) => {
            let done = backend.revert_network(&backup);
            backend.remove_marker(path);
            proof {
                let new = seq![
                    read,
                    BackendCall::RevertNetwork { backup: backup_view(backup@), worked: done@ },
                    BackendCall::RemoveMarker { path: path@ },
                ];
                assert(backend.calls() =~= start + new);
                calls_added(start, new, backend.calls());
                assert(reconciles(path@, reply, Some(backup_view(backup@)), done@, new));
            }
        },
        None => {
            proof {
                let new = seq![read];
                assert(backend.calls() =~= start + new);
                calls_added(start, new, backend.calls());
                assert(reconciles(path@, reply, None, Seq::empty(), new));
            }
        },
    }
}

/// What the network calls change: the registry and the marker file.
pub struct Machine {
    pub registry: Registry,
    pub marker: Option<Seq<u8>>,
}

/// The registry after those entries of a backup were put back for which it
/// worked.
pub open spec fn reverted_where(r: Registry, backup: Seq<EntryView>, done: Seq<bool>) -> Registry
    decreases backup.len(),
{
    if backup.len() == 0 {
        r
    } else {
        let before = reverted_where(r, backup.drop_last(), done);
        if done[backup.len() - 1] {
            put_back(before, backup.last())
        } else {
            before
        }
    }
}

/// What a call does to the machine.
pub open spec fn machine_after(m: Machine, call: BackendCall) -> Machine {
    match call {
        BackendCall::RevertNetwork { backup, worked } => Machine {
            registry: reverted_where(m.registry, backup, worked),
            ..m
        },
        BackendCall::WriteMarker { path: _, bytes, done } => if done {
            Machine { marker: Some(bytes), ..m }
        } else {
            m
        },
        BackendCall::RemoveMarker { path: _ } => Machine { marker: None, ..m },
        _ => m,
    }
}

/// What a list of calls does to the machine.
pub open spec fn machine_after_all(m: Machine, calls: Seq<BackendCall>) -> Machine
    decreases calls.len(),
{
    if calls.len() == 0 {
        m
    } else {
        machine_after(machine_after_all(m, calls.drop_last()), calls.last())
    }
}

proof fn reverted_where_all(r: Registry, backup: Seq<EntryView>, done: Seq<bool>)
    requires
        all_done(done, backup.len()),
    ensures
        reverted_where(r, backup, done) == reverted(r, backup),
    decreases backup.len(),
{
    if backup.len() > 0 {
        reverted_where_all(r, backup.drop_last(), done);
        assert(done[backup.len() - 1]);
    }
}

/// A start puts back exactly what the marker lists and deletes the marker; it
/// leaves the machine alone where the marker is missing or cannot be read.
pub proof fn reconcile_puts_back(
    m: Machine,
    path: Seq<char>,
    found: Option<Seq<EntryView>>,
    done: Seq<bool>,
    calls: Seq<BackendCall>,
)
    requires
        reconciles(path, m.marker, found, done, calls),
    ensures
        found == marker_backup(m.marker),
        found is None ==> machine_after_all(m, calls) == m,
        found is Some ==> machine_after_all(m, calls) == (Machine {
            registry: reverted_where(m.registry, found->0, done),
            marker: None,
        }),
        found is Some && all_done(done, found->0.len()) ==> machine_after_all(m, calls).registry
            == reverted(m.registry, found->0),
{
    let e = Seq::<BackendCall>::empty();
    assert(machine_after_all(m, e) == m);
    let one = seq![calls[0]];
    assert(one.drop_last() =~= e);
    if found is Some {
        let two = seq![calls[0], calls[1]];
        assert(two.drop_last() =~= one);
        assert(calls.drop_last() =~= two);
        assert(machine_after_all(m, one) == m);
        assert(machine_after_all(m, two) == machine_after(m, calls[1]));
        if all_done(done, found->0.len()) {
            reverted_where_all(m.registry, found->0, done);
        }
    } else {
        assert(calls =~= one);
    }
}

/// The marker is read first, and deleted only after what it lists was put back, so that a
/// crash in between leaves it for the next start.
pub proof fn marker_goes_last(
    path: Seq<char>,
    file: Option<Seq<u8>>,
    found: Option<Seq<EntryView>>,
    done: Seq<bool>,
    calls: Seq<BackendCall>,
)
    requires
        reconciles(path, file, found, done, calls),
    ensures
        calls.len() > 0,
        calls[0] == (BackendCall::ReadMarker { path, file }),
        found is Some ==> calls.len() == 3 && calls[1] == (BackendCall::RevertNetwork {
            backup: found->0,
            worked: done,
        }) && calls[2] == (BackendCall::RemoveMarker { path }),
        found is None ==> calls.len() == 1,
{
}

/// After a start has put back what the marker lists, a second one changes
/// nothing.
pub proof fn second_reconcile_does_nothing(
    m: Machine,
    path: Seq<char>,
    found: Option<Seq<EntryView>>,
    done: Seq<bool>,
    calls: Seq<BackendCall>,
    found_again: Option<Seq<EntryView>>,
    done_again: Seq<bool>,
    calls_again: Seq<BackendCall>,
)
    requires
        reconciles(path, m.marker, found, done, calls),
        reconciles(
            path,
            machine_after_all(m, calls).marker,
            found_again,
            done_again,
            calls_again,
        ),
    ensures
        found_again is None,
        machine_after_all(machine_after_all(m, calls), calls_again) == machine_after_all(m, calls),
{
    reconcile_puts_back(m, path, found, done, calls);
    reconcile_puts_back(
        machine_after_all(m, calls),
        path,
        found_again,
        done_again,
        calls_again,
    );
}

/// A crash in a boost is undone by the next start: from the tweaked registry and
/// the marker of the backup it gets back to the registry from before, without a
/// marker, where every entry can be put back.
pub proof fn crash_is_undone(
    r: Registry,
    tweaks: Seq<TweakView>,
    outcomes: Seq<TweakOutcome>,
    path: Seq<char>,
    found: Option<Seq<EntryView>>,
    done: Seq<bool>,
    calls: Seq<BackendCall>,
)
    requires
        distinct_targets(tweaks),
        outcomes_true_of(r, tweaks, outcomes),
        all_done(done, backup_of(tweaks, outcomes).len()),
        reconciles(
            path,
            Some(marker_layout(as_triples(backup_of(tweaks, outcomes)))),
            found,
            done,
            calls,
        ),
    ensures
        machine_after_all(
            Machine {
                registry: tweaked(r, tweaks, outcomes),
                marker: Some(marker_layout(as_triples(backup_of(tweaks, outcomes)))),
            },
            calls,
        ) == (Machine { registry: r, marker: None }),
{
    let backup = backup_of(tweaks, outcomes);
    let m = Machine {
        registry: tweaked(r, tweaks, outcomes),
        marker: Some(marker_layout(as_triples(backup))),
    };
    assert(found == Some(backup));
    reconcile_puts_back(m, path, found, done, calls);
    revert_undoes_tweaks(r, tweaks, outcomes);
}

} // verus!
