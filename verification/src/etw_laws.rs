//! What kernel events say: texts, numbers and payloads are read back as they were
//! laid out.

use vstd::prelude::*;
use vstd::utf8::{char_is_scalar, char_u32_cast};

use crate::bytes::le_value;
use crate::etw::{
    basename_of, decoded, event_name, event_parent, event_pid, first_number, first_text,
    is_separator, last_part_is_suffix, names3, payload_name, payload_parent, payload_pid, property,
    property_text, u32_at, units_of, upto_nul, utf16_text, wide_text, without_nuls, RawView,
    NAME_PROPERTIES, PARENT_PROPERTIES,
};
use crate::events::ProcessKind;

verus! {

// ---------------------------------------------------------------------------
// Numbers
// ---------------------------------------------------------------------------
/// The four bytes of a number, least significant first.
pub open spec fn four(n: u32) -> Seq<u8> {
    seq![
        (n % 256) as u8,
        (n / 256 % 256) as u8,
        (n / 65536 % 256) as u8,
        (n / 16777216) as u8,
    ]
}

proof fn four_bytes(s: Seq<u8>)
    requires
        s.len() == 4,
    ensures
        le_value(s) == s[0] as nat + 256 * (s[1] as nat) + 65536 * (s[2] as nat) + 16777216 * (
        s[3] as nat),
{
    let a = s.skip(1);
    let b = a.skip(1);
    let c = b.skip(1);
    assert(a.len() == 3 && a[0] == s[1]);
    assert(b.len() == 2 && b[0] == s[2]);
    assert(c.len() == 1 && c[0] == s[3]);
    assert(c.skip(1).len() == 0);
    assert(le_value(c.skip(1)) == 0);
    assert(le_value(c) == c[0] as nat);
    assert(le_value(b) == b[0] as nat + 256 * le_value(c));
    assert(le_value(a) == a[0] as nat + 256 * le_value(b));
    assert(le_value(s) == s[0] as nat + 256 * le_value(a));
}

proof fn four_is_read(bytes: Seq<u8>, at: int, n: u32)
    requires
        0 <= at,
        at + 4 <= bytes.len(),
        bytes.subrange(at, at + 4) == four(n),
    ensures
        le_value(bytes.subrange(at, at + 4)) == n,
        u32_at(bytes, at) == Some(n),
{
    let s = four(n);
    four_bytes(s);
    assert(n == n % 256 + 256 * (n / 256 % 256) + 65536 * (n / 65536 % 256) + 16777216 * (n
        / 16777216)) by (nonlinear_arith)
        requires
            0 <= n <= u32::MAX,
    ;
}

// ---------------------------------------------------------------------------
// Texts
// ---------------------------------------------------------------------------
/// The UTF-16 units of a character: one, or a pair of surrogates.
pub open spec fn char_units(c: char) -> Seq<u16> {
    let n = c as u32;
    if n < 0x10000 {
        seq![n as u16]
    } else {
        seq![
            (0xd800 + (n - 0x10000) / 0x400) as u16,
            (0xdc00 + (n - 0x10000) % 0x400) as u16,
        ]
    }
}

/// The UTF-16 units of a text.
pub open spec fn text_units(s: Seq<char>) -> Seq<u16>
    decreases s.len(),
{
    if s.len() == 0 {
        Seq::empty()
    } else {
        char_units(s[0]) + text_units(s.skip(1))
    }
}

/// The bytes of UTF-16 units, the lower one of each first.
pub open spec fn unit_bytes(units: Seq<u16>) -> Seq<u8> {
    Seq::new(
        2 * units.len(),
        |i: int|
            if i % 2 == 0 {
                (units[i / 2] % 256) as u8
            } else {
                (units[i / 2] / 256) as u8
            },
    )
}

/// The bytes of a text.
pub open spec fn text_bytes(s: Seq<char>) -> Seq<u8> {
    unit_bytes(text_units(s))
}

/// A text without zero characters.
pub open spec fn no_zero(s: Seq<char>) -> bool {
    forall|i: int| 0 <= i < s.len() ==> #[trigger] s[i] != '\0'
}

/// A text without path separators.
pub open spec fn no_separator(s: Seq<char>) -> bool {
    forall|i: int| 0 <= i < s.len() ==> #[trigger] s[i] != '\\' && s[i] != '/'
}

/// Every text is read back from its UTF-16 units.
#[verifier::rlimit(40)]
pub proof fn text_comes_back_from_units(s: Seq<char>)
    ensures
        utf16_text(text_units(s)) == s,
    decreases s.len(),
{
    let units = text_units(s);
    if s.len() > 0 {
        let c = s[0];
        let n = c as u32;
        let rest = text_units(s.skip(1));
        char_is_scalar(c);
        char_u32_cast(c, n);
        text_comes_back_from_units(s.skip(1));
        if n < 0x10000 {
            assert(units[0] == n as u16);
            assert(units.skip(1) =~= rest);
            assert(units[0] as u32 as char == c);
        } else {
            let h = (0xd800 + (n - 0x10000) / 0x400) as u16;
            let l = (0xdc00 + (n - 0x10000) % 0x400) as u16;
            assert(units[0] == h && units[1] == l);
            assert(units.skip(2) =~= rest);
            let high = (n - 0x10000) / 0x400;
            let low = (n - 0x10000) % 0x400;
            assert(0 <= high < 0x400 && 0 <= low < 0x400);
            assert(h == 0xd800 + high && l == 0xdc00 + low);
            assert(0x10000 + (h - 0xd800) * 0x400 + (l - 0xdc00) == n);
            assert(crate::etw::paired(h, l) == c);
        }
        assert(s =~= seq![c] + s.skip(1));
    } else {
        assert(s =~= Seq::<char>::empty());
    }
}

#[verifier::rlimit(40)]
proof fn units_without_zero(s: Seq<char>)
    requires
        no_zero(s),
    ensures
        forall|i: int| 0 <= i < text_units(s).len() ==> #[trigger] text_units(s)[i] != 0,
    decreases s.len(),
{
    if s.len() > 0 {
        let head = char_units(s[0]);
        let rest = text_units(s.skip(1));
        assert(no_zero(s.skip(1))) by {
            assert forall|i: int| 0 <= i < s.skip(1).len() implies #[trigger] s.skip(1)[i]
                != '\0' by {
                assert(s.skip(1)[i] == s[i + 1]);
            }
        }
        units_without_zero(s.skip(1));
        let c = s[0];
        char_is_scalar(c);
        char_u32_cast(c, c as u32);
        assert(c != '\0');
        assert(c as u32 != 0);
        assert forall|i: int| 0 <= i < text_units(s).len() implies #[trigger] text_units(s)[i]
            != 0 by {
            if i < head.len() {
                assert(text_units(s)[i] == head[i]);
            } else {
                assert(text_units(s)[i] == rest[i - head.len()]);
            }
        }
    }
}

proof fn two_bytes(part: Seq<u8>, u: u16)
    requires
        part.len() == 2,
        part[0] == u % 256,
        part[1] == u / 256,
    ensures
        le_value(part) == u,
{
    let rest = part.skip(1);
    assert(rest.len() == 1 && rest[0] == part[1]);
    assert(rest.skip(1).len() == 0);
    assert(le_value(rest.skip(1)) == 0);
    assert(le_value(rest) == rest[0] as nat);
    assert(le_value(part) == part[0] as nat + 256 * le_value(rest));
}

proof fn unit_at(units: Seq<u16>, tail: Seq<u8>, i: int)
    requires
        0 <= i < units.len(),
    ensures
        units_of(unit_bytes(units) + tail)[i] == units[i],
{
    let bytes = unit_bytes(units);
    let all = bytes + tail;
    let part = all.subrange(2 * i, 2 * i + 2);
    assert(part[0] == all[2 * i] && part[1] == all[2 * i + 1]);
    assert(all[2 * i] == bytes[2 * i] && all[2 * i + 1] == bytes[2 * i + 1]);
    assert((2 * i) % 2 == 0 && (2 * i) / 2 == i);
    assert((2 * i + 1) % 2 == 1 && (2 * i + 1) / 2 == i);
    two_bytes(part, units[i]);
}

proof fn units_of_bytes(units: Seq<u16>, tail: Seq<u8>)
    ensures
        units_of(unit_bytes(units) + tail).len() >= units.len(),
        units_of(unit_bytes(units) + tail).take(units.len() as int) == units,
{
    let got = units_of(unit_bytes(units) + tail);
    assert forall|i: int| 0 <= i < units.len() implies #[trigger] got[i] == units[i] by {
        unit_at(units, tail, i);
    }
    assert(got.take(units.len() as int) =~= units);
}

proof fn ends_at_zero(units: Seq<u16>, n: int)
    requires
        0 <= n <= units.len(),
        forall|i: int| 0 <= i < n ==> #[trigger] units[i] != 0,
        n == units.len() || units[n] == 0,
    ensures
        upto_nul(units) == units.take(n),
    decreases n,
{
    if n == 0 {
        assert(units.take(0) =~= Seq::<u16>::empty());
    } else {
        let rest = units.skip(1);
        assert forall|i: int| 0 <= i < n - 1 implies #[trigger] rest[i] != 0 by {
            assert(rest[i] == units[i + 1]);
        }
        assert(units[0] != 0);
        ends_at_zero(rest, n - 1);
        assert(units.take(n) =~= seq![units[0]] + rest.take(n - 1));
    }
}

/// A text is read back from its UTF-16 bytes, where they end or where a zero unit ends
/// them, whatever follows that.
#[verifier::rlimit(40)]
pub proof fn text_comes_back_from_bytes(s: Seq<char>, tail: Seq<u8>)
    requires
        no_zero(s),
    ensures
        wide_text(text_bytes(s)) == s,
        wide_text(text_bytes(s) + seq![0u8, 0u8] + tail) == s,
{
    let units = text_units(s);
    let n = units.len() as int;
    units_without_zero(s);
    text_comes_back_from_units(s);
    let e = Seq::<u8>::empty();
    assert(text_bytes(s) + e =~= text_bytes(s));
    units_of_bytes(units, e);
    let plain = units_of(text_bytes(s));
    assert(plain =~= units);
    ends_at_zero(plain, n);
    assert(plain.take(n) =~= units);
    let more = seq![0u8, 0u8] + tail;
    let all = text_bytes(s) + seq![0u8, 0u8] + tail;
    assert(all =~= text_bytes(s) + more);
    units_of_bytes(units, more);
    let got = units_of(all);
    assert(got.len() > n);
    let part = all.subrange(2 * n, 2 * n + 2);
    assert(part =~= seq![0u8, 0u8]);
    two_bytes(part, 0);
    assert(got[n] == 0);
    assert forall|i: int| 0 <= i < n implies #[trigger] got[i] != 0 by {
        assert(got.take(n)[i] == units[i]);
    }
    ends_at_zero(got, n);
}

/// The file name of a path is what follows its last separator.
pub proof fn file_name_follows_the_last_separator(dir: Seq<char>, name: Seq<char>)
    requires
        dir.len() > 0 ==> dir.last() == '\\' || dir.last() == '/',
        no_separator(name),
        no_zero(name),
    ensures
        basename_of(dir + name) == name,
{
    let path = dir + name;
    let from = dir.len() as int;
    assert forall|i: int| from <= i < path.len() implies !is_separator(#[trigger] path[i]) by {
        assert(path[i] == name[i - from]);
    }
    if from > 0 {
        assert(path[from - 1] == dir.last());
    }
    last_part_is_suffix(path, from);
    assert(path.skip(from) =~= name);
    if name.len() > 0 {
        assert(name[name.len() - 1] != '\0');
    }
    assert(without_nuls(name) == name);
}

// ---------------------------------------------------------------------------
// Payloads
// ---------------------------------------------------------------------------
/// The image name of a start is read from its payload: it stands behind the fixed part
/// of the event's version and behind the security identifier, which has eight bytes and
/// four more for each of as many parts as its second byte says. Of a path the file name
/// counts.
#[verifier::rlimit(40)]
pub proof fn name_is_read_from_the_payload(
    ev: RawView,
    ptr: int,
    fixed: Seq<u8>,
    sid: Seq<u8>,
    dir: Seq<char>,
    name: Seq<char>,
    tail: Seq<u8>,
)
    requires
        ev.id == 1,
        0 <= ptr,
        fixed.len() == if ev.version == 0 {
            8
        } else if ev.version == 4 {
            48
        } else {
            2 * ptr + 16
        },
        sid.len() >= 8,
        sid.len() == 8 + 4 * sid[1],
        ev.payload == fixed + sid + text_bytes(dir + name) + seq![0u8, 0u8] + tail,
        dir.len() > 0 ==> dir.last() == '\\' || dir.last() == '/',
        no_zero(dir),
        name.len() > 0,
        no_zero(name),
        no_separator(name),
    ensures
        payload_name(ev, ptr) == Some(name),
        ev.properties.len() == 0 ==> event_name(ev, ptr) == name,
{
    let path = dir + name;
    let at = fixed.len() + sid.len();
    assert(no_zero(path)) by {
        assert forall|i: int| 0 <= i < path.len() implies #[trigger] path[i] != '\0' by {
            if i < dir.len() {
                assert(path[i] == dir[i]);
            } else {
                assert(path[i] == name[i - dir.len()]);
            }
        }
    }
    text_comes_back_from_bytes(path, tail);
    file_name_follows_the_last_separator(dir, name);
    assert(ev.payload.skip(at as int) =~= text_bytes(path) + seq![0u8, 0u8] + tail);
    assert(ev.payload[fixed.len() as int + 1] == sid[1]);
    if ev.properties.len() == 0 {
        no_properties(ev);
    }
}

proof fn no_properties(ev: RawView)
    requires
        ev.properties.len() == 0,
    ensures
        forall|name: Seq<char>| property(ev.properties, name) is None,
        first_text(ev, names3(NAME_PROPERTIES)) is None,
        first_number(ev, names3(PARENT_PROPERTIES)) is None,
        first_number(ev, seq!["ProcessId"@]) is None,
{
    reveal_with_fuel(first_text, 4);
    reveal_with_fuel(first_number, 4);
}

/// The pids of an event without properties are read from its payload. In versions other
/// than 1 the pid comes first; in version 1 a pointer comes before it. The parent of a
/// start follows the pid at once in versions 0 and 1, behind a pointer and eight bytes in
/// version 4, and behind a pointer in every other one.
#[verifier::rlimit(40)]
pub proof fn pids_are_read_from_the_payload(
    ev: RawView,
    ptr: int,
    lead: Seq<u8>,
    pid: u32,
    gap: Seq<u8>,
    parent: u32,
    tail: Seq<u8>,
)
    requires
        0 <= ptr,
        ev.properties.len() == 0,
        ev.payload == lead + four(pid) + gap + four(parent) + tail,
        lead.len() == if ev.version == 1 {
            ptr
        } else {
            0
        },
        gap.len() == if ev.version == 0 || ev.version == 1 {
            0
        } else if ev.version == 4 {
            ptr + 8
        } else {
            ptr
        },
    ensures
        payload_pid(ev.payload, ev.version, ptr) == Some(pid),
        event_pid(ev, ptr) == pid,
        ev.id == 1 ==> payload_parent(ev, ptr) == Some(parent) && event_parent(ev, ptr) == parent,
{
    no_properties(ev);
    let at = lead.len() as int;
    assert(ev.payload.subrange(at, at + 4) =~= four(pid));
    four_is_read(ev.payload, at, pid);
    let up = at + 4 + gap.len();
    assert(ev.payload.subrange(up, up + 4) =~= four(parent));
    four_is_read(ev.payload, up, parent);
}

/// An event is a start where its id is 1 and a stop where it is 2, and stands for nothing
/// under any other id or without a pid. A start carries the name and the parent, a stop
/// neither.
pub proof fn ids_tell_starts_from_stops(ev: RawView, ptr: int)
    ensures
        decoded(ev, ptr) is Some <==> (ev.id == 1 || ev.id == 2) && event_pid(ev, ptr) != 0,
        decoded(ev, ptr) is Some ==> decoded(ev, ptr)->0.pid == event_pid(ev, ptr),
        decoded(ev, ptr) is Some && ev.id == 1 ==> {
            &&& decoded(ev, ptr)->0.kind == ProcessKind::Start
            &&& decoded(ev, ptr)->0.name == event_name(ev, ptr)
            &&& decoded(ev, ptr)->0.parent_pid == event_parent(ev, ptr)
        },
        decoded(ev, ptr) is Some && ev.id == 2 ==> {
            &&& decoded(ev, ptr)->0.kind == ProcessKind::Stop
            &&& decoded(ev, ptr)->0.name.len() == 0
            &&& decoded(ev, ptr)->0.parent_pid == 0
        },
{
}

// ---------------------------------------------------------------------------
// Properties
// ---------------------------------------------------------------------------
/// An event has a property of this name, and the first one has this value.
pub open spec fn has_property(ev: RawView, name: Seq<char>, value: Seq<u8>) -> bool {
    exists|k: int| #[trigger] is_first_property(ev, name, k) && ev.properties[k].1 == value
}

/// Entry `k` is the first property of this name.
pub open spec fn is_first_property(ev: RawView, name: Seq<char>, k: int) -> bool {
    &&& 0 <= k < ev.properties.len()
    &&& ev.properties[k].0 == name
    &&& forall|j: int| 0 <= j < k ==> (#[trigger] ev.properties[j]).0 != name
}

/// An event has no property of this name.
pub open spec fn lacks_property(ev: RawView, name: Seq<char>) -> bool {
    forall|j: int| 0 <= j < ev.properties.len() ==> (#[trigger] ev.properties[j]).0 != name
}

proof fn property_means(props: Seq<(Seq<char>, Seq<u8>)>, name: Seq<char>)
    ensures
        (forall|j: int| 0 <= j < props.len() ==> (#[trigger] props[j]).0 != name) ==> property(
            props,
            name,
        ) is None,
        forall|k: int|
            0 <= k < props.len() && (#[trigger] props[k]).0 == name && (forall|j: int|
                0 <= j < k ==> (#[trigger] props[j]).0 != name) ==> property(props, name) == Some(
                props[k].1,
            ),
    decreases props.len(),
{
    if props.len() > 0 {
        let rest = props.skip(1);
        property_means(rest, name);
        if forall|j: int| 0 <= j < props.len() ==> (#[trigger] props[j]).0 != name {
            assert(props[0].0 != name);
            assert forall|j: int| 0 <= j < rest.len() implies (#[trigger] rest[j]).0 != name by {
                assert(rest[j] == props[j + 1]);
            }
        }
        assert forall|k: int|
            0 <= k < props.len() && (#[trigger] props[k]).0 == name && (forall|j: int|
                0 <= j < k ==> (#[trigger] props[j]).0 != name) implies property(props, name)
            == Some(props[k].1) by {
            if k > 0 {
                assert(props[0].0 != name);
                assert(rest[k - 1] == props[k]);
                assert forall|j: int| 0 <= j < k - 1 implies (#[trigger] rest[j]).0 != name by {
                    assert(rest[j] == props[j + 1]);
                }
            }
        }
    }
}

proof fn has_property_means(ev: RawView, name: Seq<char>, value: Seq<u8>)
    ensures
        has_property(ev, name, value) ==> property(ev.properties, name) == Some(value),
        lacks_property(ev, name) ==> property(ev.properties, name) is None,
{
    property_means(ev.properties, name);
    if has_property(ev, name, value) {
        let k = choose|k: int| #[trigger]
            is_first_property(ev, name, k) && ev.properties[k].1 == value;
        assert(ev.properties[k].0 == name);
    }
}

/// The properties that may hold the parent, first choice first.
pub open spec fn parent_keys() -> Seq<Seq<char>> {
    seq!["ParentPID"@, "ParentId"@, "ParentProcessId"@]
}

/// The properties that may hold the image name, first choice first.
pub open spec fn name_keys() -> Seq<Seq<char>> {
    seq!["ProcessName"@, "ImageFileName"@, "UniqueProcessName"@]
}

/// The `ProcessId` property wins over whatever the payload and the header say.
pub proof fn pid_property_wins(ev: RawView, ptr: int, pid: u32, more: Seq<u8>)
    requires
        has_property(ev, "ProcessId"@, four(pid) + more),
    ensures
        event_pid(ev, ptr) == pid,
{
    let value = four(pid) + more;
    has_property_means(ev, "ProcessId"@, value);
    assert(value.subrange(0, 4) =~= four(pid));
    four_is_read(value, 0, pid);
    reveal_with_fuel(first_number, 2);
}

/// The parent is taken from the first of its three properties that an event has, whatever
/// the payload says.
pub proof fn parent_property_wins(ev: RawView, ptr: int, k: int, parent: u32, more: Seq<u8>)
    requires
        0 <= k < 3,
        has_property(
            ev,
            parent_keys()[k],
            four(parent) + more,
        ),
        forall|j: int|
            0 <= j < k ==> lacks_property(
                ev,
                #[trigger] parent_keys()[j],
            ),
    ensures
        event_parent(ev, ptr) == parent,
{
    let names = parent_keys();
    let value = four(parent) + more;
    assert(names3(PARENT_PROPERTIES) =~= names);
    has_property_means(ev, names[k], value);
    assert(value.subrange(0, 4) =~= four(parent));
    four_is_read(value, 0, parent);
    first_number_at(ev, names, k);
}

proof fn first_number_at(ev: RawView, names: Seq<Seq<char>>, k: int)
    requires
        0 <= k < names.len(),
        property(ev.properties, names[k]) is Some,
        u32_at(property(ev.properties, names[k])->0, 0) is Some,
        forall|j: int| 0 <= j < k ==> lacks_property(ev, #[trigger] names[j]),
    ensures
        first_number(ev, names) == u32_at(property(ev.properties, names[k])->0, 0),
    decreases k,
{
    if k > 0 {
        has_property_means(ev, names[0], Seq::empty());
        let rest = names.skip(1);
        assert(rest[k - 1] == names[k]);
        assert forall|j: int| 0 <= j < k - 1 implies lacks_property(ev, #[trigger] rest[j]) by {
            assert(rest[j] == names[j + 1]);
        }
        assert(lacks_property(ev, names[0]));
        first_number_at(ev, rest, k - 1);
    }
}

proof fn first_text_at(ev: RawView, names: Seq<Seq<char>>, k: int)
    requires
        0 <= k < names.len(),
        property(ev.properties, names[k]) is Some,
        property_text(property(ev.properties, names[k])->0) is Some,
        forall|j: int| 0 <= j < k ==> lacks_property(ev, #[trigger] names[j]),
    ensures
        first_text(ev, names) == property_text(property(ev.properties, names[k])->0),
    decreases k,
{
    if k > 0 {
        has_property_means(ev, names[0], Seq::empty());
        let rest = names.skip(1);
        assert(rest[k - 1] == names[k]);
        assert forall|j: int| 0 <= j < k - 1 implies lacks_property(ev, #[trigger] rest[j]) by {
            assert(rest[j] == names[j + 1]);
        }
        assert(lacks_property(ev, names[0]));
        first_text_at(ev, rest, k - 1);
    }
}

/// A text in a property is read back: with the number of its units before it, whatever
/// follows; or plain, where the value is too short for its first four bytes to be such a
/// number.
#[verifier::rlimit(40)]
pub proof fn text_is_read_from_a_property(s: Seq<char>, more: Seq<u8>)
    requires
        s.len() > 0,
        no_zero(s),
        text_units(s).len() <= u32::MAX,
    ensures
        property_text(four(text_units(s).len() as u32) + text_bytes(s) + more) == Some(s),
        text_units(s).len() >= 2 && text_bytes(s).len() < 0x2_0000 ==> property_text(text_bytes(s))
            == Some(s),
{
    let units = text_units(s);
    let n = units.len() as u32;
    let bytes = text_bytes(s);
    text_comes_back_from_bytes(s, Seq::empty());
    assert(units.len() > 0) by {
        assert(char_units(s[0]).len() > 0);
    }
    let counted = four(n) + bytes + more;
    assert(counted.subrange(0, 4) =~= four(n));
    assert(counted.take(4) =~= counted.subrange(0, 4));
    four_is_read(counted, 0, n);
    assert(counted.subrange(4, 4 + n * 2) =~= bytes);
    if units.len() >= 2 && bytes.len() < 0x2_0000 {
        units_without_zero(s);
        let front = bytes.take(4);
        four_bytes(front);
        assert(front[2] == (units[1] % 256) as u8);
        assert(front[3] == (units[1] / 256) as u8);
        assert(units[1] != 0);
        assert(le_value(front) >= 0x1_0000);
    }
}

/// The name is taken from the first of its three properties that an event has, whatever
/// the payload says; of a path the file name counts.
pub proof fn name_property_wins(
    ev: RawView,
    ptr: int,
    k: int,
    dir: Seq<char>,
    name: Seq<char>,
)
    requires
        0 <= k < 3,
        has_property(
            ev,
            name_keys()[k],
            text_bytes(dir + name),
        ),
        forall|j: int|
            0 <= j < k ==> lacks_property(
                ev,
                #[trigger] name_keys()[j],
            ),
        dir.len() > 0 ==> dir.last() == '\\' || dir.last() == '/',
        no_zero(dir + name),
        no_separator(name),
        2 <= text_units(dir + name).len() < 0x1_0000,
    ensures
        event_name(ev, ptr) == name,
{
    let names = name_keys();
    let path = dir + name;
    assert(names3(NAME_PROPERTIES) =~= names);
    has_property_means(ev, names[k], text_bytes(path));
    if path.len() == 0 {
        assert(text_units(path).len() == 0);
    }
    text_is_read_from_a_property(path, Seq::empty());
    first_text_at(ev, names, k);
    assert(no_zero(name)) by {
        assert forall|i: int| 0 <= i < name.len() implies #[trigger] name[i] != '\0' by {
            assert(path[dir.len() + i] == name[i]);
        }
    }
    file_name_follows_the_last_separator(dir, name);
}

} // verus!
