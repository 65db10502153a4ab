//! Case-insensitive substring rules over process image names.
//!
//! The search itself is done by an Aho-Corasick automaton that is built once
//! per configuration; this module states what a set of patterns means and picks
//! the earliest matching one.

use aho_corasick::{AhoCorasick, BuildError};
use vstd::prelude::*;
use vstd::utf8::{
    char_is_scalar, char_u32_cast, decode_first_scalar, decode_utf8, decode_utf8_encode_utf8,
    decode_utf8_split, encode_scalar, encode_utf8, encode_utf8_decode_utf8,
    encode_utf8_first_scalar, encode_utf8_valid_utf8, is_char_boundary,
    is_char_boundary_iff_not_is_continuation_byte, is_continuation_byte, length_of_first_scalar,
    valid_utf8_split,
};

use crate::text::{contains, fold, lower, occurs_at, texts, to_ascii_lowercase};

verus! {

// ---------------------------------------------------------------------------
// The automaton
// ---------------------------------------------------------------------------
/// The searcher of the `aho_corasick` crate.
#[verifier::external_type_specification]
#[verifier::external_body]
pub struct ExAhoCorasick(aho_corasick::AhoCorasick);

/// Why the `aho_corasick` crate could not build a searcher.
#[verifier::external_type_specification]
#[verifier::external_body]
pub struct ExBuildError(aho_corasick::BuildError);

/// The patterns that a searcher was built from, in the order of their indices.
pub uninterp spec fn automaton_patterns(ac: AhoCorasick) -> Seq<Seq<u8>>;

/// The searcher was built by a default builder with ASCII case insensitivity
/// switched on (so: standard match semantics, unanchored searches).
pub uninterp spec fn automaton_folds_case(ac: AhoCorasick) -> bool;

/// The builder can number the states, transitions and matches that these
/// patterns need (its identifiers are 31 bits wide).
pub uninterp spec fn automaton_fits(patterns: Seq<Seq<u8>>) -> bool;

/// The ASCII lower-case form of a byte.
pub open spec fn lower_byte(b: u8) -> u8 {
    if 65 <= b && b <= 90 {
        (b + 32) as u8
    } else {
        b
    }
}

/// `pattern` stands in `hay` from byte `at` on, up to ASCII case.
pub open spec fn found_at(hay: Seq<u8>, pattern: Seq<u8>, at: int) -> bool {
    &&& 0 <= at
    &&& at + pattern.len() <= hay.len()
    &&& forall|i: int|
        0 <= i < pattern.len() ==> lower_byte(#[trigger] pattern[i]) == lower_byte(hay[at + i])
}

/// `pattern` stands somewhere in `hay`, up to ASCII case.
pub open spec fn found_in(hay: Seq<u8>, pattern: Seq<u8>) -> bool {
    exists|at: int| #[trigger] found_at(hay, pattern, at)
}

/// Some pattern stands in `hay`.
pub open spec fn any_found(patterns: Seq<Seq<u8>>, hay: Seq<u8>) -> bool {
    exists|i: int| 0 <= i < patterns.len() && found_in(hay, #[trigger] patterns[i])
}

/// `indices` holds the index of each pattern that stands in `hay`, and no other.
pub open spec fn indices_of_found(
    indices: Seq<usize>,
    patterns: Seq<Seq<u8>>,
    hay: Seq<u8>,
) -> bool {
    forall|i: usize| #[trigger]
        indices.contains(i) <==> i < patterns.len() && found_in(hay, patterns[i as int])
}

/// The UTF-8 bytes of each text.
pub open spec fn all_bytes(patterns: Seq<Seq<char>>) -> Seq<Seq<u8>> {
    patterns.map_values(|p: Seq<char>| encode_utf8(p))
}

/// `AhoCorasickBuilder::build` of the `aho_corasick` crate, on a default builder
/// with `ascii_case_insensitive(true)`: it succeeds exactly when the patterns
/// fit, and the searcher then holds these patterns in this order.
#[verifier::external_body]
fn build_automaton(patterns: &Vec<String>) -> (r: Result<AhoCorasick, BuildError>)
    ensures
        r is Ok <==> automaton_fits(all_bytes(texts(patterns@))),
        r is Ok ==> automaton_folds_case(r->Ok_0),
        r is Ok ==> automaton_patterns(r->Ok_0) == all_bytes(texts(patterns@)),
{
    AhoCorasick::builder().ascii_case_insensitive(true).build(patterns)
}

/// `AhoCorasick::is_match` of the `aho_corasick` crate: whether any pattern
/// stands in the bytes, up to ASCII case.
#[verifier::external_body]
fn automaton_is_match(ac: &AhoCorasick, hay: &[u8]) -> (r: bool)
    requires
        automaton_folds_case(*ac),
    ensures
        r == any_found(automaton_patterns(*ac), hay@),
{
    ac.is_match(hay)
}

/// `AhoCorasick::find_overlapping_iter` of the `aho_corasick` crate, with each
/// match mapped to the index of its pattern: the indices that occur are those of
/// all patterns that stand in the bytes. Their order and how often each occurs
/// is not stated.
#[verifier::external_body]
fn automaton_matching_indices(ac: &AhoCorasick, hay: &[u8]) -> (r: Vec<usize>)
    requires
        automaton_folds_case(*ac),
    ensures
        indices_of_found(r@, automaton_patterns(*ac), hay@),
{
    ac.find_overlapping_iter(hay).map(|m| m.pattern().as_usize()).collect()
}

/// `AhoCorasick::patterns_len` of the `aho_corasick` crate: the number of
/// patterns.
#[verifier::external_body]
fn automaton_len(ac: &AhoCorasick) -> (r: usize)
    ensures
        r == automaton_patterns(*ac).len(),
{
    ac.patterns_len()
}

// ---------------------------------------------------------------------------
// Matching names
// ---------------------------------------------------------------------------
/// A process name matches a pattern that it holds as a substring, whatever the
/// case of the ASCII letters in either.
pub open spec fn name_matches(pattern: Seq<char>, name: Seq<char>) -> bool {
    contains(fold(name), fold(pattern))
}

/// Some pattern matches the name.
pub open spec fn any_matches(patterns: Seq<Seq<char>>, name: Seq<char>) -> bool {
    exists|i: int| 0 <= i < patterns.len() && name_matches(#[trigger] patterns[i], name)
}

/// `index` is that of the earliest pattern that matches the name.
pub open spec fn is_first_match(patterns: Seq<Seq<char>>, name: Seq<char>, index: int) -> bool {
    &&& 0 <= index < patterns.len()
    &&& name_matches(patterns[index], name)
    &&& forall|i: int| 0 <= i < index ==> !name_matches(#[trigger] patterns[i], name)
}

/// The index of the earliest pattern that matches the name.
pub open spec fn first_match(patterns: Seq<Seq<char>>, name: Seq<char>) -> Option<int> {
    if any_matches(patterns, name) {
        Some(choose|index: int| is_first_match(patterns, name, index))
    } else {
        None
    }
}

/// The earliest match is unique: an index is that of the first match exactly
/// when its pattern matches and no pattern before it does.
pub proof fn first_match_is_earliest(patterns: Seq<Seq<char>>, name: Seq<char>)
    ensures
        first_match(patterns, name) is Some <==> any_matches(patterns, name),
        first_match(patterns, name) is Some ==> is_first_match(
            patterns,
            name,
            first_match(patterns, name)->0,
        ),
        forall|i: int|
            is_first_match(patterns, name, i) ==> first_match(patterns, name) == Some(i),
{
    if any_matches(patterns, name) {
        let i = choose|i: int| 0 <= i < patterns.len() && name_matches(#[trigger] patterns[i], name);
        earliest_exists(patterns, name, i);
    }
    assert forall|i: int| is_first_match(patterns, name, i) implies first_match(patterns, name)
        == Some(i) by {
        assert(name_matches(patterns[i], name));
        let k = first_match(patterns, name)->0;
        if k < i {
            assert(!name_matches(patterns[k], name));
        } else if i < k {
            assert(!name_matches(patterns[i], name));
        }
    }
}

proof fn earliest_exists(patterns: Seq<Seq<char>>, name: Seq<char>, i: int)
    requires
        0 <= i < patterns.len(),
        name_matches(patterns[i], name),
    ensures
        exists|index: int| is_first_match(patterns, name, index),
    decreases i,
{
    if exists|j: int| 0 <= j < i && name_matches(#[trigger] patterns[j], name) {
        let j = choose|j: int| 0 <= j < i && name_matches(#[trigger] patterns[j], name);
        earliest_exists(patterns, name, j);
    } else {
        assert(is_first_match(patterns, name, i));
    }
}

/// The patterns in ASCII lower case.
pub open spec fn folded(patterns: Seq<Seq<char>>) -> Seq<Seq<char>> {
    patterns.map_values(|p: Seq<char>| fold(p))
}

/// A matcher can be built for these patterns.
pub open spec fn matchable(patterns: Seq<Seq<char>>) -> bool {
    automaton_fits(all_bytes(folded(patterns)))
}

fn lowered(patterns: &Vec<String>) -> (r: Vec<String>)
    ensures
        texts(r@) == folded(texts(patterns@)),
{
    let mut r: Vec<String> = Vec::new();
    let mut i: usize = 0;
    while i < patterns.len()
        invariant
            i <= patterns@.len(),
            r@.len() == i,
            forall|j: int| 0 <= j < i ==> (#[trigger] r@[j])@ == fold(patterns@[j]@),
        decreases patterns@.len() - i,
    {
        r.push(to_ascii_lowercase(patterns[i].as_str()));
        i = i + 1;
    }
    assert(texts(r@) =~= folded(texts(patterns@)));
    r
}

/// Case-insensitive substring matcher over a list of patterns, compiled once
/// when a configuration is loaded.
pub struct PatternMatcher {
    ac: AhoCorasick,
    patterns: Ghost<Seq<Seq<char>>>,
}

impl View for PatternMatcher {
    type V = Seq<Seq<char>>;

    /// The patterns in ASCII lower case, in the order they were given in.
    closed spec fn view(&self) -> Seq<Seq<char>> {
        self.patterns@
    }
}

impl PatternMatcher {
    #[verifier::type_invariant]
    spec fn built(self) -> bool {
        &&& automaton_folds_case(self.ac)
        &&& automaton_patterns(self.ac) == all_bytes(self.patterns@)
    }

    /// A matcher for the given patterns.
    pub fn new(patterns: Vec<String>) -> (r: Self)
        requires
            matchable(texts(patterns@)),
        ensures
            r@ == folded(texts(patterns@)),
    {
        match Self::try_new(patterns) {
            Some(m) => m,
            None => vstd::pervasive::unreached(),
        }
    }

    /// A matcher for the given patterns, or nothing when they are more than an
    /// automaton can hold.
    pub fn try_new(patterns: Vec<String>) -> (r: Option<Self>)
        ensures
            r is Some <==> matchable(texts(patterns@)),
            r is Some ==> r->0@ == folded(texts(patterns@)),
    {
        let low = lowered(&patterns);
        match build_automaton(&low) {
            Ok(ac) => Some(
                PatternMatcher { ac, patterns: Ghost(folded(texts(patterns@))) },
            ),
            Err(_) => None,
        }
    }

    /// Whether any pattern matches the name.
    pub fn matches(&self, name: &str) -> (r: bool)
        ensures
            r == any_matches(self@, name@),
    {
        proof {
            use_type_invariant(self);
        }
        let r = automaton_is_match(&self.ac, name.as_bytes());
        proof {
            let bytes = automaton_patterns(self.ac);
            assert forall|i: int| 0 <= i < bytes.len() implies (found_in(
                encode_utf8(name@),
                #[trigger] bytes[i],
            ) <==> name_matches(self@[i], name@)) by {
                found_in_bytes_means_match(self@[i], name@);
            }
            if r {
                let i = choose|i: int|
                    0 <= i < bytes.len() && found_in(encode_utf8(name@), #[trigger] bytes[i]);
                assert(name_matches(self@[i], name@));
            }
            if any_matches(self@, name@) {
                let i = choose|i: int|
                    0 <= i < self@.len() && name_matches(#[trigger] self@[i], name@);
                assert(found_in(encode_utf8(name@), bytes[i]));
            }
        }
        r
    }

    /// The index of the earliest pattern that matches the name.
    pub fn first_matching(&self, name: &str) -> (r: Option<usize>)
        ensures
            r is Some <==> first_match(self@, name@) is Some,
            r is Some ==> first_match(self@, name@) == Some(r->0 as int),
    {
        proof {
            use_type_invariant(self);
            first_match_is_earliest(self@, name@);
            assert forall|i: int| 0 <= i < self@.len() implies (found_in(
                encode_utf8(name@),
                #[trigger] automaton_patterns(self.ac)[i],
            ) <==> name_matches(self@[i], name@)) by {
                found_in_bytes_means_match(self@[i], name@);
            }
        }
        let count: usize = automaton_len(&self.ac);
        if count == 0 {
            return None;
        }
        let found = automaton_matching_indices(&self.ac, name.as_bytes());
        let mut best: Option<usize> = None;
        let mut k: usize = 0;
        while k < found.len()
            invariant
                k <= found@.len(),
                best is None ==> k == 0,
                best is Some ==> found@.contains(best->0),
                best is Some ==> forall|j: int| 0 <= j < k ==> best->0 <= #[trigger] found@[j],
            decreases found@.len() - k,
        {
            let candidate: usize = found[k];
            assert(found@.contains(candidate));
            best = match best {
                None => Some(candidate),
                Some(b) => if candidate < b {
                    Some(candidate)
                } else {
                    Some(b)
                },
            };
            k = k + 1;
        }
        proof {
            match best {
                None => {
                    if any_matches(self@, name@) {
                        let i = choose|i: int|
                            0 <= i < self@.len() && name_matches(#[trigger] self@[i], name@);
                        assert(automaton_patterns(self.ac)[i] == encode_utf8(self@[i]));
                        assert(i < count);
                        assert(found@.contains(i as usize));
                    }
                },
                Some(b) => {
                    assert(automaton_patterns(self.ac)[b as int] == encode_utf8(self@[b as int]));
                    assert forall|i: int| 0 <= i < b implies !name_matches(
                        #[trigger] self@[i],
                        name@,
                    ) by {
                        if name_matches(self@[i], name@) {
                            assert(automaton_patterns(self.ac)[i] == encode_utf8(self@[i]));
                            assert(found@.contains(i as usize));
                        }
                    }
                    assert(is_first_match(self@, name@, b as int));
                },
            }
        }
        best
    }

    /// Whether there are no patterns at all.
    pub fn is_empty(&self) -> (r: bool)
        ensures
            r == (self@.len() == 0),
    {
        proof {
            use_type_invariant(self);
        }
        automaton_len(&self.ac) == 0
    }
}

// ---------------------------------------------------------------------------
// Matching in terms of characters
// ---------------------------------------------------------------------------
proof fn scalar_fold(c: char)
    ensures
        encode_scalar(lower(c) as u32) == encode_scalar(c as u32).map_values(
            |b: u8| lower_byte(b),
        ),
{
    let v = c as u32;
    let f = |b: u8| lower_byte(b);
    char_is_scalar(c);
    if v < 0x80 {
        let w = lower(c) as u32;
        assert(w < 0x80);
        assert((v & 0x7f) as u8 == v as u8) by (bit_vector)
            requires
                v < 0x80,
        ;
        assert((w & 0x7f) as u8 == w as u8) by (bit_vector)
            requires
                w < 0x80,
        ;
        assert(encode_scalar(w) =~= encode_scalar(v).map_values(f));
    } else {
        assert(lower(c) == c);
        assert((0xC0 | ((v >> 6) & 0x1F) as u8) >= 0x80u8) by (bit_vector);
        assert((0xE0 | ((v >> 12) & 0x0F) as u8) >= 0x80u8) by (bit_vector);
        assert((0xF0 | ((v >> 18) & 0x7) as u8) >= 0x80u8) by (bit_vector);
        assert((0x80 | (v & 0x3F) as u8) >= 0x80u8) by (bit_vector);
        assert((0x80 | ((v >> 6) & 0x3F) as u8) >= 0x80u8) by (bit_vector);
        assert((0x80 | ((v >> 12) & 0x3F) as u8) >= 0x80u8) by (bit_vector);
        assert(encode_scalar(v).map_values(f) =~= encode_scalar(v));
    }
}

/// Folding the characters of a text folds its bytes.
proof fn fold_folds_bytes(s: Seq<char>)
    ensures
        encode_utf8(fold(s)) == encode_utf8(s).map_values(|b: u8| lower_byte(b)),
    decreases s.len(),
{
    let f = |b: u8| lower_byte(b);
    if s.len() == 0 {
        assert(encode_utf8(fold(s)) =~= encode_utf8(s).map_values(f));
    } else {
        let rest = s.drop_first();
        fold_folds_bytes(rest);
        scalar_fold(s[0]);
        assert(fold(s).drop_first() =~= fold(rest));
        assert(fold(s)[0] == lower(s[0]));
        assert(encode_utf8(s).map_values(f) =~= encode_scalar(s[0] as u32).map_values(f)
            + encode_utf8(rest).map_values(f));
    }
}

proof fn encode_joins(a: Seq<char>, b: Seq<char>)
    ensures
        encode_utf8(a + b) == encode_utf8(a) + encode_utf8(b),
    decreases a.len(),
{
    if a.len() == 0 {
        assert(a + b =~= b);
        assert(encode_utf8(a) + encode_utf8(b) =~= encode_utf8(b));
    } else {
        encode_joins(a.drop_first(), b);
        assert((a + b).drop_first() =~= a.drop_first() + b);
        assert(encode_utf8(a + b) =~= encode_utf8(a) + encode_utf8(b));
    }
}

/// A text whose bytes begin those of another begins the other.
proof fn byte_prefix_is_prefix(x: Seq<char>, y: Seq<char>)
    requires
        encode_utf8(x).is_prefix_of(encode_utf8(y)),
    ensures
        x.is_prefix_of(y),
    decreases x.len(),
{
    if x.len() > 0 {
        let ex = encode_utf8(x);
        let ey = encode_utf8(y);
        encode_utf8_first_scalar(x);
        let n = length_of_first_scalar(ex);
        assert(1 <= n <= ex.len());
        assert(y.len() > 0);
        encode_utf8_first_scalar(y);
        assert(forall|i: int| 0 <= i < ex.len() ==> ex[i] == ey[i]);
        assert(decode_first_scalar(ey) == decode_first_scalar(ex));
        assert(x[0] as u32 == y[0] as u32);
        char_u32_cast(x[0], x[0] as u32);
        char_u32_cast(y[0], y[0] as u32);
        assert(x[0] == y[0]);
        let first = encode_scalar(x[0] as u32);
        let rx = x.drop_first();
        let ry = y.drop_first();
        assert(ex == first + encode_utf8(rx));
        assert(ey == first + encode_utf8(ry));
        assert(encode_utf8(rx) =~= ex.skip(first.len() as int));
        assert(encode_utf8(ry) =~= ey.skip(first.len() as int));
        assert(encode_utf8(rx).is_prefix_of(encode_utf8(ry))) by {
            assert forall|i: int| 0 <= i < encode_utf8(rx).len() implies encode_utf8(rx)[i]
                == encode_utf8(ry)[i] by {
                assert(ex[i + first.len()] == ey[i + first.len()]);
            }
        }
        byte_prefix_is_prefix(rx, ry);
        assert forall|i: int| 0 <= i < x.len() implies x[i] == y[i] by {
            if i > 0 {
                assert(rx[i - 1] == ry[i - 1]);
            }
        }
    }
}

/// The bytes of a text stand in those of another at some place exactly when the
/// text stands in the other.
proof fn byte_substring_is_substring(x: Seq<char>, y: Seq<char>, at: int)
    requires
        0 <= at,
        at + encode_utf8(x).len() <= encode_utf8(y).len(),
        encode_utf8(y).subrange(at, at + encode_utf8(x).len()) == encode_utf8(x),
    ensures
        contains(y, x),
{
    let ex = encode_utf8(x);
    let ey = encode_utf8(y);
    if x.len() == 0 {
        assert(y.subrange(0, 0) =~= x);
        assert(occurs_at(y, x, 0));
    } else {
        encode_utf8_first_scalar(x);
        encode_utf8_valid_utf8(y);
        assert(ey.subrange(at, at + ex.len())[0] == ey[at]);
        assert(!is_continuation_byte(ex[0]));
        is_char_boundary_iff_not_is_continuation_byte(ey, at);
        assert(is_char_boundary(ey, at));
        let head = ey.subrange(0, at);
        let tail = ey.subrange(at, ey.len() as int);
        valid_utf8_split(ey, at);
        decode_utf8_split(ey, at);
        encode_utf8_decode_utf8(y);
        decode_utf8_encode_utf8(tail);
        let k = decode_utf8(head).len() as int;
        let ytail = decode_utf8(tail);
        assert(y =~= decode_utf8(head) + ytail);
        assert(ex.is_prefix_of(encode_utf8(ytail))) by {
            assert forall|i: int| 0 <= i < ex.len() implies ex[i] == tail[i] by {
                assert(ey.subrange(at, at + ex.len())[i] == ey[at + i]);
            }
        }
        byte_prefix_is_prefix(x, ytail);
        assert(y.subrange(k, k + x.len()) =~= x);
        assert(occurs_at(y, x, k));
    }
}

/// The bytes of a pattern stand in those of a name, up to ASCII case, exactly
/// when the name matches the pattern.
pub proof fn found_in_bytes_means_match(pattern: Seq<char>, name: Seq<char>)
    ensures
        found_in(encode_utf8(name), encode_utf8(pattern)) <==> name_matches(pattern, name),
{
    let p = encode_utf8(pattern);
    let n = encode_utf8(name);
    let fp = encode_utf8(fold(pattern));
    let fnm = encode_utf8(fold(name));
    fold_folds_bytes(pattern);
    fold_folds_bytes(name);
    if found_in(n, p) {
        let at = choose|at: int| #[trigger] found_at(n, p, at);
        assert(fnm.subrange(at, at + fp.len()) =~= fp) by {
            assert forall|i: int| 0 <= i < fp.len() implies fnm.subrange(at, at + fp.len())[i]
                == fp[i] by {
                assert(lower_byte(p[i]) == lower_byte(n[at + i]));
            }
        }
        byte_substring_is_substring(fold(pattern), fold(name), at);
    }
    if contains(fold(name), fold(pattern)) {
        let y = fold(name);
        let x = fold(pattern);
        let k = choose|k: int| #[trigger] occurs_at(y, x, k);
        let a = y.take(k);
        let c = y.skip(k + x.len());
        assert(y =~= a + (x + c));
        encode_joins(a, x + c);
        encode_joins(x, c);
        let at = encode_utf8(a).len() as int;
        assert(fnm == encode_utf8(a) + (fp + encode_utf8(c)));
        assert(fnm.len() == n.len() && fp.len() == p.len());
        assert forall|i: int| 0 <= i < p.len() implies lower_byte(#[trigger] p[i]) == lower_byte(
            n[at + i],
        ) by {
            assert(fp[i] == lower_byte(p[i]));
            assert(fnm[at + i] == lower_byte(n[at + i]));
            assert(fnm[at + i] == fp[i]);
        }
        assert(found_at(n, p, at));
    }
}

/// The case of the ASCII letters in a pattern or in a name does not matter.
pub proof fn match_ignores_case(
    pattern: Seq<char>,
    pattern2: Seq<char>,
    name: Seq<char>,
    name2: Seq<char>,
)
    requires
        fold(pattern) == fold(pattern2),
        fold(name) == fold(name2),
    ensures
        name_matches(pattern, name) == name_matches(pattern2, name2),
{
}

/// An empty pattern matches every name, and every name matches itself.
pub proof fn trivial_matches(name: Seq<char>)
    ensures
        name_matches(Seq::empty(), name),
        name_matches(name, name),
{
    assert(fold(Seq::empty()) =~= Seq::<char>::empty());
    assert(fold(name).subrange(0, 0) =~= Seq::<char>::empty());
    assert(occurs_at(fold(name), fold(Seq::empty()), 0));
    assert(fold(name).subrange(0, fold(name).len() as int) =~= fold(name));
    assert(occurs_at(fold(name), fold(name), 0));
}

} // verus!
