//! Decoding of kernel process events.
//!
//! Event 1 is a start, event 2 a stop. The affected pid is taken from the
//! `ProcessId` property, else from the payload, else from the event header (whose
//! pid is that of the creating process for starts). Name and parent are taken
//! from properties under any of their known names, else from the payload.

use vstd::prelude::*;

use crate::bytes::{byte_ranges, le_value, le_value_fits, read_le};
use crate::events::{ProcessEvent, ProcessKind};
use crate::text::{chars_of, same_text, text_in, text_of};

verus! {

/// `char::from_u32` of std: the character with this number, unless the number is
/// past the last one or that of a surrogate.
pub assume_specification[ char::from_u32 ](i: u32) -> (r: Option<char>)
    ensures
        r is Some <==> (i < 0xd800 || (0xe000 <= i && i <= 0x10ffff)),
        r is Some ==> r->0 as u32 == i,
;

// ---------------------------------------------------------------------------
// UTF-16
// ---------------------------------------------------------------------------
/// The 16-bit units of a byte string; an odd byte at the end is ignored.
pub open spec fn units_of(bytes: Seq<u8>) -> Seq<u16> {
    Seq::new((bytes.len() / 2) as nat, |i: int| le_value(bytes.subrange(2 * i, 2 * i + 2)) as u16)
}

/// Units up to the first zero.
pub open spec fn upto_nul(units: Seq<u16>) -> Seq<u16>
    decreases units.len(),
{
    if units.len() == 0 || units[0] == 0 {
        Seq::empty()
    } else {
        seq![units[0]] + upto_nul(units.skip(1))
    }
}

pub open spec fn is_high_surrogate(u: u16) -> bool {
    0xd800 <= u && u < 0xdc00
}

pub open spec fn is_low_surrogate(u: u16) -> bool {
    0xdc00 <= u && u < 0xe000
}

/// The character that two surrogates stand for.
pub open spec fn paired(high: u16, low: u16) -> char {
    (0x10000 + (high - 0xd800) * 0x400 + (low - 0xdc00)) as u32 as char
}

/// The text of UTF-16 units; a surrogate without its partner reads as the
/// replacement character.
pub open spec fn utf16_text(units: Seq<u16>) -> Seq<char>
    decreases units.len(),
{
    if units.len() == 0 {
        Seq::empty()
    } else if !is_high_surrogate(units[0]) && !is_low_surrogate(units[0]) {
        seq![units[0] as u32 as char] + utf16_text(units.skip(1))
    } else if is_high_surrogate(units[0]) && units.len() > 1 && is_low_surrogate(units[1]) {
        seq![paired(units[0], units[1])] + utf16_text(units.skip(2))
    } else {
        seq!['\u{fffd}'] + utf16_text(units.skip(1))
    }
}

/// The text in a byte string, up to the first zero unit.
pub open spec fn wide_text(bytes: Seq<u8>) -> Seq<char> {
    utf16_text(upto_nul(units_of(bytes)))
}

fn units_upto_nul(bytes: &[u8], from: usize, to: usize) -> (r: Vec<u16>)
    requires
        from <= to <= bytes@.len(),
    ensures
        r@ == upto_nul(units_of(bytes@.subrange(from as int, to as int))),
{
    let ghost part = bytes@.subrange(from as int, to as int);
    let ghost units = units_of(part);
    let mut r: Vec<u16> = Vec::new();
    let mut i: usize = 0;
    let n: usize = (to - from) / 2;
    assert(units.skip(0) =~= units);
    while i < n
        invariant
            i <= n,
            n == (to - from) / 2,
            from <= to <= bytes@.len(),
            part == bytes@.subrange(from as int, to as int),
            units == units_of(part),
            upto_nul(units) == r@ + upto_nul(units.skip(i as int)),
        decreases n - i,
    {
        let at: usize = from + 2 * i;
        assert(part.subrange(2 * i as int, 2 * i + 2) =~= bytes@.subrange(at as int, at + 2));
        proof {
            byte_ranges();
            le_value_fits(part.subrange(2 * i as int, 2 * i + 2));
        }
        let u: u16 = read_le(bytes, at, 2) as u16;
        assert(u == units[i as int]);
        assert(units.skip(i as int)[0] == u);
        if u == 0 {
            assert(upto_nul(units.skip(i as int)) =~= Seq::<u16>::empty());
            assert(r@ + Seq::<u16>::empty() =~= r@);
            return r;
        }
        assert(units.skip(i as int).skip(1) =~= units.skip(i + 1));
        let ghost before = r@;
        r.push(u);
        assert(before + (seq![u] + upto_nul(units.skip(i + 1))) =~= r@ + upto_nul(
            units.skip(i + 1),
        ));
        i = i + 1;
    }
    assert(upto_nul(units.skip(i as int)) =~= Seq::<u16>::empty());
    assert(r@ + Seq::<u16>::empty() =~= r@);
    r
}

fn char_of(code: u32) -> (r: char)
    requires
        code < 0xd800 || (0xe000 <= code && code <= 0x10ffff),
    ensures
        r as u32 == code,
{
    match char::from_u32(code) {
        Some(c) => c,
        None => vstd::pervasive::unreached(),
    }
}

/// Decodes UTF-16 units.
pub fn text_from_utf16(units: &Vec<u16>) -> (r: String)
    ensures
        r@ == utf16_text(units@),
{
    let mut r = String::new();
    let mut i: usize = 0;
    assert(units@.skip(0) =~= units@);
    assert(r@ + utf16_text(units@) =~= utf16_text(units@));
    while i < units.len()
        invariant
            i <= units@.len(),
            utf16_text(units@) == r@ + utf16_text(units@.skip(i as int)),
        decreases units@.len() - i,
    {
        let u: u16 = units[i];
        let ghost rest = units@.skip(i as int);
        let ghost before = r@;
        assert(rest[0] == u);
        assert(rest.skip(1) =~= units@.skip(i + 1));
        if !(0xd800 <= u && u < 0xe000) {
            r.push(char_of(u as u32));
            assert(before + (seq![u as u32 as char] + utf16_text(units@.skip(i + 1))) =~= r@
                + utf16_text(units@.skip(i + 1)));
            i = i + 1;
        } else if u < 0xdc00 && i + 1 < units.len() && 0xdc00 <= units[i + 1] && units[i + 1]
            < 0xe000 {
            let low: u16 = units[i + 1];
            assert(rest[1] == low);
            assert(rest.skip(2) =~= units@.skip(i + 2));
            r.push(char_of(0x10000 + (u as u32 - 0xd800) * 0x400 + (low as u32 - 0xdc00)));
            assert(before + (seq![paired(u, low)] + utf16_text(units@.skip(i + 2))) =~= r@
                + utf16_text(units@.skip(i + 2)));
            i = i + 2;
        } else {
            r.push('\u{fffd}');
            assert(before + (seq!['\u{fffd}'] + utf16_text(units@.skip(i + 1))) =~= r@
                + utf16_text(units@.skip(i + 1)));
            i = i + 1;
        }
    }
    assert(utf16_text(units@.skip(i as int)) =~= Seq::<char>::empty());
    assert(r@ + Seq::<char>::empty() =~= r@);
    r
}

fn wide_text_in(bytes: &[u8], from: usize, to: usize) -> (r: String)
    requires
        from <= to <= bytes@.len(),
    ensures
        r@ == wide_text(bytes@.subrange(from as int, to as int)),
{
    let units = units_upto_nul(bytes, from, to);
    text_from_utf16(&units)
}

/// Decodes little-endian UTF-16 up to the first zero unit.
pub fn decode_utf16_units(bytes: &[u8]) -> (r: String)
    ensures
        r@ == wide_text(bytes@),
{
    assert(bytes@.subrange(0, bytes@.len() as int) =~= bytes@);
    wide_text_in(bytes, 0, bytes.len())
}

// ---------------------------------------------------------------------------
// Properties
// ---------------------------------------------------------------------------
/// A text, unless it is empty.
pub open spec fn non_empty(s: Seq<char>) -> Option<Seq<char>> {
    if s.len() == 0 {
        None
    } else {
        Some(s)
    }
}

/// The text of a property. A value may begin with the number of its units in
/// four bytes: a zero there means that there is no text; a number that the value
/// is long enough for selects the units behind it, unless they hold no text. In
/// every other case the whole value is text.
pub open spec fn property_text(bytes: Seq<u8>) -> Option<Seq<char>> {
    let prefix = le_value(bytes.take(4)) as int;
    if bytes.len() == 0 {
        None
    } else if bytes.len() >= 4 && prefix == 0 {
        None
    } else if bytes.len() >= 4 && bytes.len() >= 4 + prefix * 2 && wide_text(
        bytes.subrange(4, 4 + prefix * 2),
    ).len() > 0 {
        Some(wide_text(bytes.subrange(4, 4 + prefix * 2)))
    } else {
        non_empty(wide_text(bytes))
    }
}

pub fn property_string(bytes: &[u8]) -> (r: Option<String>)
    ensures
        text_in(r) == property_text(bytes@),
{
    if bytes.len() == 0 {
        return None;
    }
    if bytes.len() >= 4 {
        assert(bytes@.take(4) =~= bytes@.subrange(0, 4));
        let len: u64 = read_le(bytes, 0, 4);
        if len == 0 {
            return None;
        }
        let room: u64 = ((bytes.len() - 4) / 2) as u64;
        if len <= room {
            let to: usize = 4 + 2 * (len as usize);
            let s = wide_text_in(bytes, 4, to);
            if !s.as_str().is_empty() {
                return Some(s);
            }
        }
    }
    let s = decode_utf16_units(bytes);
    if s.as_str().is_empty() {
        None
    } else {
        Some(s)
    }
}

/// A path separator.
pub open spec fn is_separator(c: char) -> bool {
    c == '\\' || c == '/'
}

/// What follows the last separator of a path.
pub open spec fn last_part(path: Seq<char>) -> Seq<char>
    decreases path.len(),
{
    if path.len() == 0 || is_separator(path.last()) {
        Seq::empty()
    } else {
        last_part(path.drop_last()).push(path.last())
    }
}

/// A text without zero characters at its end.
pub open spec fn without_nuls(s: Seq<char>) -> Seq<char>
    decreases s.len(),
{
    if s.len() > 0 && s.last() == '\0' {
        without_nuls(s.drop_last())
    } else {
        s
    }
}

/// The file name of a path.
pub open spec fn basename_of(path: Seq<char>) -> Seq<char> {
    without_nuls(last_part(path))
}

/// What follows a separator, and holds none itself, is the last part of a path.
pub proof fn last_part_is_suffix(path: Seq<char>, from: int)
    requires
        0 <= from <= path.len(),
        forall|i: int| from <= i < path.len() ==> !is_separator(#[trigger] path[i]),
        from > 0 ==> is_separator(path[from - 1]),
    ensures
        last_part(path) == path.skip(from),
    decreases path.len(),
{
    if from == path.len() {
        assert(path.skip(from) =~= Seq::<char>::empty());
    } else {
        let head = path.drop_last();
        assert forall|i: int| from <= i < head.len() implies !is_separator(#[trigger] head[i]) by {
            assert(head[i] == path[i]);
        }
        last_part_is_suffix(head, from);
        assert(!is_separator(path[path.len() - 1]));
        assert(head.skip(from).push(path.last()) =~= path.skip(from));
    }
}

pub fn basename(path: &str) -> (r: String)
    ensures
        r@ == basename_of(path@),
{
    let chars = chars_of(path);
    let mut from: usize = chars.len();
    while from > 0 && !(chars[from - 1] == '\\' || chars[from - 1] == '/')
        invariant
            from <= chars@.len(),
            chars@ == path@,
            forall|i: int| from <= i < chars@.len() ==> !is_separator(#[trigger] chars@[i]),
        decreases from,
    {
        from = from - 1;
    }
    proof {
        last_part_is_suffix(path@, from as int);
    }
    let mut to: usize = chars.len();
    assert(path@.skip(from as int) =~= path@.subrange(from as int, to as int));
    while to > from && chars[to - 1] == '\0'
        invariant
            from <= to <= chars@.len(),
            chars@ == path@,
            without_nuls(path@.subrange(from as int, to as int)) == basename_of(path@),
        decreases to,
    {
        assert(path@.subrange(from as int, to as int).drop_last() =~= path@.subrange(
            from as int,
            to - 1,
        ));
        to = to - 1;
    }
    assert(without_nuls(path@.subrange(from as int, to as int)) == path@.subrange(
        from as int,
        to as int,
    ));
    text_of(&chars, from, to)
}

/// A 32-bit number at an offset of a byte string.
pub open spec fn u32_at(bytes: Seq<u8>, at: int) -> Option<u32> {
    if bytes.len() >= at + 4 {
        Some(le_value(bytes.subrange(at, at + 4)) as u32)
    } else {
        None
    }
}

fn read_u32(bytes: &[u8], at: usize) -> (r: Option<u32>)
    ensures
        r == u32_at(bytes@, at as int),
{
    if bytes.len() >= 4 && at <= bytes.len() - 4 {
        proof {
            byte_ranges();
            le_value_fits(bytes@.subrange(at as int, at + 4));
        }
        Some(read_le(bytes, at, 4) as u32)
    } else {
        None
    }
}

/// The number in a property value.
pub fn decode_u32(bytes: &[u8]) -> (r: Option<u32>)
    ensures
        r == u32_at(bytes@, 0),
{
    read_u32(bytes, 0)
}

/// Reads a text up to the first zero unit; nothing where there is none.
pub fn read_null_terminated_utf16(bytes: &[u8]) -> (r: Option<String>)
    ensures
        text_in(r) == non_empty(wide_text(bytes@)),
{
    let s = decode_utf16_units(bytes);
    if s.as_str().is_empty() {
        None
    } else {
        Some(s)
    }
}

// ---------------------------------------------------------------------------
// Events
// ---------------------------------------------------------------------------
/// A kernel event as it was delivered. `properties` holds the values of those
/// properties that the system could resolve, by name.
#[derive(Debug)]
pub struct RawEvent {
    pub id: u16,
    pub version: u8,
    pub header_pid: u32,
    pub payload: Vec<u8>,
    pub properties: Vec<(String, Vec<u8>)>,
}

/// An event as a value.
pub struct RawView {
    pub id: u16,
    pub version: u8,
    pub header_pid: u32,
    pub payload: Seq<u8>,
    pub properties: Seq<(Seq<char>, Seq<u8>)>,
}

impl View for RawEvent {
    type V = RawView;

    open spec fn view(&self) -> RawView {
        RawView {
            id: self.id,
            version: self.version,
            header_pid: self.header_pid,
            payload: self.payload@,
            properties: self.properties@.map_values(|p: (String, Vec<u8>)| (p.0@, p.1@)),
        }
    }
}

/// The property names under which the image name may stand, first choice first.
pub const NAME_PROPERTIES: [&'static str; 3] = [
    "ProcessName",
    "ImageFileName",
    "UniqueProcessName",
];

/// The property names under which the parent may stand, first choice first.
pub const PARENT_PROPERTIES: [&'static str; 3] = ["ParentPID", "ParentId", "ParentProcessId"];

/// The first property of a name.
pub open spec fn property(props: Seq<(Seq<char>, Seq<u8>)>, name: Seq<char>) -> Option<Seq<u8>>
    decreases props.len(),
{
    if props.len() == 0 {
        None
    } else if props[0].0 == name {
        Some(props[0].1)
    } else {
        property(props.skip(1), name)
    }
}

/// The kernel numbers of a start and of a stop.
pub open spec fn kind_of(id: u16) -> Option<ProcessKind> {
    if id == 1 {
        Some(ProcessKind::Start)
    } else if id == 2 {
        Some(ProcessKind::Stop)
    } else {
        None
    }
}

/// The pid in a payload: behind a pointer in version 1, at the front in the
/// others.
pub open spec fn payload_pid(data: Seq<u8>, version: u8, ptr: int) -> Option<u32> {
    u32_at(
        data,
        if version == 1 {
            ptr
        } else {
            0
        },
    )
}

/// The parent's pid in the payload of a start.
pub open spec fn payload_parent(ev: RawView, ptr: int) -> Option<u32> {
    if ev.id != 1 {
        None
    } else {
        u32_at(
            ev.payload,
            if ev.version == 0 {
                4
            } else if ev.version == 4 {
                ptr + 12
            } else {
                ptr + 4
            },
        )
    }
}

/// The offset of the security identifier in the payload of a start.
pub open spec fn sid_offset(version: u8, ptr: int) -> int {
    if version == 0 {
        8
    } else if version == 4 {
        48
    } else {
        2 * ptr + 16
    }
}

/// The offset of the image name: behind the security identifier, which has eight
/// bytes and four for each of as many parts as its second byte says.
pub open spec fn name_offset(data: Seq<u8>, version: u8, ptr: int) -> int {
    let sid = sid_offset(version, ptr);
    sid + 8 + 4 * data[sid + 1]
}

/// The image name in the payload of a start.
pub open spec fn payload_name(ev: RawView, ptr: int) -> Option<Seq<char>> {
    let sid = sid_offset(ev.version, ptr);
    let at = name_offset(ev.payload, ev.version, ptr);
    if ev.id != 1 || ev.payload.len() < sid + 8 || at >= ev.payload.len() {
        None
    } else {
        match non_empty(wide_text(ev.payload.skip(at))) {
            Some(s) => non_empty(basename_of(s)),
            None => None,
        }
    }
}

/// The text of the first of the given properties that has one.
pub open spec fn first_text(ev: RawView, names: Seq<Seq<char>>) -> Option<Seq<char>>
    decreases names.len(),
{
    if names.len() == 0 {
        None
    } else {
        let found = match property(ev.properties, names[0]) {
            Some(bytes) => property_text(bytes),
            None => None,
        };
        if found is Some {
            found
        } else {
            first_text(ev, names.skip(1))
        }
    }
}

/// The number of the first of the given properties that has one.
pub open spec fn first_number(ev: RawView, names: Seq<Seq<char>>) -> Option<u32>
    decreases names.len(),
{
    if names.len() == 0 {
        None
    } else {
        let found = match property(ev.properties, names[0]) {
            Some(bytes) => u32_at(bytes, 0),
            None => None,
        };
        if found is Some {
            found
        } else {
            first_number(ev, names.skip(1))
        }
    }
}

/// Texts of constants.
pub open spec fn names3(names: [&'static str; 3]) -> Seq<Seq<char>> {
    names@.map_values(|s: &'static str| s@)
}

/// The image name of an event; empty where it has none.
pub open spec fn event_name(ev: RawView, ptr: int) -> Seq<char> {
    match first_text(ev, names3(NAME_PROPERTIES)) {
        Some(s) => basename_of(s),
        None => match payload_name(ev, ptr) {
            Some(s) => s,
            None => Seq::empty(),
        },
    }
}

/// The parent's pid of an event; 0 where it has none.
pub open spec fn event_parent(ev: RawView, ptr: int) -> u32 {
    match first_number(ev, names3(PARENT_PROPERTIES)) {
        Some(pid) => pid,
        None => match payload_parent(ev, ptr) {
            Some(pid) => pid,
            None => 0,
        },
    }
}

/// The affected pid of an event.
pub open spec fn event_pid(ev: RawView, ptr: int) -> u32 {
    match first_number(ev, seq!["ProcessId"@]) {
        Some(pid) => pid,
        None => match payload_pid(ev.payload, ev.version, ptr) {
            Some(pid) => pid,
            None => ev.header_pid,
        },
    }
}

/// A process event as a value.
pub struct DecodedView {
    pub pid: u32,
    pub name: Seq<char>,
    pub parent_pid: u32,
    pub kind: ProcessKind,
}

/// The process event that a kernel event stands for. Other ids and a zero pid
/// stand for none. A stop carries neither name nor parent.
pub open spec fn decoded(ev: RawView, ptr: int) -> Option<DecodedView> {
    match kind_of(ev.id) {
        None => None,
        Some(kind) => if event_pid(ev, ptr) == 0 {
            None
        } else {
            Some(
                DecodedView {
                    pid: event_pid(ev, ptr),
                    name: if kind == ProcessKind::Start {
                        event_name(ev, ptr)
                    } else {
                        Seq::empty()
                    },
                    parent_pid: if kind == ProcessKind::Start {
                        event_parent(ev, ptr)
                    } else {
                        0
                    },
                    kind,
                },
            )
        },
    }
}

/// An optional process event as a value.
pub open spec fn event_in(e: Option<ProcessEvent>) -> Option<DecodedView> {
    match e {
        Some(e) => Some(
            DecodedView { pid: e.pid, name: e.name@, parent_pid: e.parent_pid, kind: e.kind },
        ),
        None => None,
    }
}

impl RawEvent {
    /// The value of a property.
    pub fn get_property(&self, name: &str) -> (r: Option<&Vec<u8>>)
        ensures
            r is Some <==> property(self@.properties, name@) is Some,
            r is Some ==> r->0@ == property(self@.properties, name@)->0,
    {
        let ghost all = self@.properties;
        let mut i: usize = 0;
        assert(all.skip(0) =~= all);
        while i < self.properties.len()
            invariant
                i <= self.properties@.len(),
                all == self@.properties,
                property(all, name@) == property(all.skip(i as int), name@),
            decreases self.properties@.len() - i,
        {
            let p = &self.properties[i];
            assert(all.skip(i as int)[0] == (p.0@, p.1@));
            if same_text(p.0.as_str(), name) {
                return Some(&p.1);
            }
            assert(all.skip(i as int).skip(1) =~= all.skip(i + 1));
            i = i + 1;
        }
        None
    }

    fn first_property_text(&self, names: [&'static str; 3]) -> (r: Option<String>)
        ensures
            text_in(r) == first_text(self@, names3(names)),
    {
        let ghost all = names3(names);
        let mut i: usize = 0;
        assert(all.skip(0) =~= all);
        while i < 3
            invariant
                i <= 3,
                all == names3(names),
                first_text(self@, all) == first_text(self@, all.skip(i as int)),
            decreases 3 - i,
        {
            assert(all.skip(i as int)[0] == names@[i as int]@);
            if let Some(bytes) = self.get_property(names[i]) {
                if let Some(s) = property_string(bytes.as_slice()) {
                    return Some(s);
                }
            }
            assert(all.skip(i as int).skip(1) =~= all.skip(i + 1));
            i = i + 1;
        }
        None
    }

    fn first_property_u32(&self, names: [&'static str; 3]) -> (r: Option<u32>)
        ensures
            r == first_number(self@, names3(names)),
    {
        let ghost all = names3(names);
        let mut i: usize = 0;
        assert(all.skip(0) =~= all);
        while i < 3
            invariant
                i <= 3,
                all == names3(names),
                first_number(self@, all) == first_number(self@, all.skip(i as int)),
            decreases 3 - i,
        {
            assert(all.skip(i as int)[0] == names@[i as int]@);
            if let Some(bytes) = self.get_property(names[i]) {
                if let Some(n) = decode_u32(bytes.as_slice()) {
                    return Some(n);
                }
            }
            assert(all.skip(i as int).skip(1) =~= all.skip(i + 1));
            i = i + 1;
        }
        None
    }
}

/// Reads the image name from the payload of a start, for pointers of `ptr`
/// bytes.
pub fn decode_name_from_payload(ev: &RawEvent, ptr: usize) -> (r: Option<String>)
    requires
        ptr <= 16,
    ensures
        text_in(r) == payload_name(ev@, ptr as int),
{
    if ev.id != 1 {
        return None;
    }
    let data = ev.payload.as_slice();
    let sid: usize = match ev.version {
        0 => 8,
        4 => 48,
        _ => 2 * ptr + 16,
    };
    if data.len() < sid + 8 {
        return None;
    }
    let at: usize = sid + 8 + (data[sid + 1] as usize) * 4;
    if at >= data.len() {
        return None;
    }
    assert(data@.subrange(at as int, data@.len() as int) =~= data@.skip(at as int));
    let s = wide_text_in(data, at, data.len());
    if s.as_str().is_empty() {
        return None;
    }
    let name = basename(s.as_str());
    if name.as_str().is_empty() {
        None
    } else {
        Some(name)
    }
}

/// Reads the affected pid from a payload, for pointers of `ptr` bytes.
pub fn decode_pid_from_payload(data: &[u8], version: u8, ptr: usize) -> (r: Option<u32>)
    ensures
        r == payload_pid(data@, version, ptr as int),
{
    let at: usize = if version == 1 {
        ptr
    } else {
        0
    };
    read_u32(data, at)
}

/// Reads the parent's pid from the payload of a start, for pointers of `ptr`
/// bytes.
pub fn decode_parent_pid_from_payload(ev: &RawEvent, ptr: usize) -> (r: Option<u32>)
    requires
        ptr <= 16,
    ensures
        r == payload_parent(ev@, ptr as int),
{
    if ev.id != 1 {
        return None;
    }
    let at: usize = match ev.version {
        0 => 4,
        4 => ptr + 12,
        _ => ptr + 4,
    };
    read_u32(ev.payload.as_slice(), at)
}

/// The image name of an event.
pub fn decode_name(ev: &RawEvent, ptr: usize) -> (r: String)
    requires
        ptr <= 16,
    ensures
        r@ == event_name(ev@, ptr as int),
{
    match ev.first_property_text(NAME_PROPERTIES) {
        Some(s) => basename(s.as_str()),
        None => match decode_name_from_payload(ev, ptr) {
            Some(s) => s,
            None => {
                let r = String::new();
                assert(r@ =~= Seq::<char>::empty());
                r
            },
        },
    }
}

/// The parent's pid of an event.
pub fn decode_parent_pid(ev: &RawEvent, ptr: usize) -> (r: u32)
    requires
        ptr <= 16,
    ensures
        r == event_parent(ev@, ptr as int),
{
    match ev.first_property_u32(PARENT_PROPERTIES) {
        Some(pid) => pid,
        None => match decode_parent_pid_from_payload(ev, ptr) {
            Some(pid) => pid,
            None => 0,
        },
    }
}

fn decode_pid(ev: &RawEvent, ptr: usize) -> (r: u32)
    ensures
        r == event_pid(ev@, ptr as int),
{
    let ghost one = seq!["ProcessId"@];
    assert(one.skip(1) =~= Seq::<Seq<char>>::empty());
    assert(first_number(ev@, one.skip(1)) is None);
    if let Some(bytes) = ev.get_property("ProcessId") {
        if let Some(pid) = decode_u32(bytes.as_slice()) {
            return pid;
        }
    }
    match decode_pid_from_payload(ev.payload.as_slice(), ev.version, ptr) {
        Some(pid) => pid,
        None => ev.header_pid,
    }
}

/// Decodes a kernel event, for pointers of `ptr` bytes.
pub fn decode_event(ev: &RawEvent, ptr: usize) -> (r: Option<ProcessEvent>)
    requires
        ptr <= 16,
    ensures
        event_in(r) == decoded(ev@, ptr as int),
{
    let kind = match ev.id {
        1 => ProcessKind::Start,
        2 => ProcessKind::Stop,
        _ => {
            return None;
        },
    };
    let pid: u32 = decode_pid(ev, ptr);
    if pid == 0 {
        return None;
    }
    match kind {
        ProcessKind::Stop => {
            let name = String::new();
            assert(name@ =~= Seq::<char>::empty());
            Some(ProcessEvent { pid, name, parent_pid: 0, kind })
        },
        ProcessKind::Start => Some(
            ProcessEvent {
                pid,
                name: decode_name(ev, ptr),
                parent_pid: decode_parent_pid(ev, ptr),
                kind,
            },
        ),
    }
}

/// A decoded event always has a pid, and a stop has neither name nor parent.
pub proof fn decoded_events_are_usable(ev: RawView, ptr: int)
    requires
        decoded(ev, ptr) is Some,
    ensures
        decoded(ev, ptr)->0.pid != 0,
        decoded(ev, ptr)->0.kind == ProcessKind::Stop ==> decoded(ev, ptr)->0.name.len() == 0
            && decoded(ev, ptr)->0.parent_pid == 0,
        ev.id == 1 || ev.id == 2,
{
}

} // verus!
