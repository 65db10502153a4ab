//! Hotkey notation: `"ctrl+alt+o"` as modifiers and a virtual-key code.

use vstd::prelude::*;

use crate::rule_laws::{same_name, same_name_means};
use crate::text::{
    chars_of, decimal, decimal_is_number, decimal_reads_back, fold, is_digit, is_space, number_in,
    parse_number, same_text, split, split_at_last_separator, split_on, split_without_separator,
    text_of, texts, to_ascii_lowercase, trim, trimmed, trimmed_already, upper, upper_char,
};

verus! {

pub const MOD_ALT: u32 = 1;

pub const MOD_CONTROL: u32 = 2;

pub const MOD_SHIFT: u32 = 4;

pub const MOD_WIN: u32 = 8;

/// The virtual-key code of the first function key; the others follow it.
pub const VK_F1: u32 = 0x70;

/// The modifier of a token, in any ASCII case.
pub open spec fn modifier(token: Seq<char>) -> Option<u32> {
    if fold(token) == "ctrl"@ {
        Some(MOD_CONTROL)
    } else if fold(token) == "alt"@ {
        Some(MOD_ALT)
    } else if fold(token) == "shift"@ {
        Some(MOD_SHIFT)
    } else if fold(token) == "win"@ {
        Some(MOD_WIN)
    } else {
        None
    }
}

/// All modifiers of a list of tokens, if each is one.
pub open spec fn modifiers(tokens: Seq<Seq<char>>) -> Option<u32>
    decreases tokens.len(),
{
    if tokens.len() == 0 {
        Some(0u32)
    } else {
        match (modifiers(tokens.drop_last()), modifier(tokens.last())) {
            (Some(mods), Some(m)) => Some(mods | m),
            _ => None,
        }
    }
}

/// The virtual-key code of a key token: `f1` to `f24` in either case, or a
/// single character, which stands for its upper-case form.
pub open spec fn key_code(token: Seq<char>) -> Option<u32> {
    if token.len() > 1 && fold(token)[0] == 'f' {
        match number_in(fold(token).skip(1)) {
            Some(n) => if 1 <= n <= 24 {
                Some((VK_F1 - 1 + n) as u32)
            } else {
                None
            },
            None => None,
        }
    } else if token.len() == 1 {
        Some(upper(token[0]) as u32)
    } else {
        None
    }
}

/// The tokens of a hotkey: what stands between the `+` signs, trimmed.
pub open spec fn tokens(s: Seq<char>) -> Seq<Seq<char>> {
    split(s, '+').map_values(|t: Seq<char>| trimmed(t))
}

/// A hotkey as modifiers and virtual-key code: no token is empty, the last one
/// is a key, and each before it is a modifier.
pub open spec fn hotkey(s: Seq<char>) -> Option<(u32, u32)> {
    let all = tokens(s);
    if exists|i: int| 0 <= i < all.len() && (#[trigger] all[i]).len() == 0 {
        None
    } else {
        match (modifiers(all.drop_last()), key_code(all.last())) {
            (Some(mods), Some(vk)) => Some((mods, vk)),
            _ => None,
        }
    }
}

fn parse_modifier(token: &str) -> (r: Option<u32>)
    ensures
        r == modifier(token@),
{
    let low = to_ascii_lowercase(token);
    if same_text(low.as_str(), "ctrl") {
        Some(MOD_CONTROL)
    } else if same_text(low.as_str(), "alt") {
        Some(MOD_ALT)
    } else if same_text(low.as_str(), "shift") {
        Some(MOD_SHIFT)
    } else if same_text(low.as_str(), "win") {
        Some(MOD_WIN)
    } else {
        None
    }
}

/// Reads a key token.
pub fn parse_key(token: &str) -> (r: Option<u32>)
    ensures
        r == key_code(token@),
{
    let low = to_ascii_lowercase(token);
    let chars = chars_of(low.as_str());
    if chars.len() > 1 && chars[0] == 'f' {
        let rest = text_of(&chars, 1, chars.len());
        assert(rest@ =~= fold(token@).skip(1));
        return match parse_number(rest.as_str(), 24) {
            Some(n) => if n >= 1 {
                Some(VK_F1 - 1 + n as u32)
            } else {
                None
            },
            None => None,
        };
    }
    let all = chars_of(token);
    if all.len() == 1 {
        Some(upper_char(all[0]) as u32)
    } else {
        None
    }
}

/// Reads a hotkey such as `"ctrl+alt+o"`: `ctrl`, `alt`, `shift` and `win` in
/// any ASCII case, then a key, which is a single character or `f1` to `f24`.
pub fn parse_hotkey(s: &str) -> (r: Option<(u32, u32)>)
    ensures
        r == hotkey(s@),
{
    let pieces = split_on(s, '+');
    let ghost all = tokens(s@);
    let mut trimmed_pieces: Vec<String> = Vec::new();
    let mut i: usize = 0;
    while i < pieces.len()
        invariant
            i <= pieces@.len(),
            texts(pieces@) == split(s@, '+'),
            all == tokens(s@),
            trimmed_pieces@.len() == i,
            forall|k: int| 0 <= k < i ==> (#[trigger] trimmed_pieces@[k])@ == all[k],
            forall|k: int| 0 <= k < i ==> (#[trigger] all[k]).len() > 0,
        decreases pieces@.len() - i,
    {
        let t = trim(pieces[i].as_str());
        assert(texts(pieces@)[i as int] == pieces@[i as int]@);
        if t.as_str().is_empty() {
            assert(all[i as int].len() == 0);
            return None;
        }
        trimmed_pieces.push(t);
        i = i + 1;
    }
    let last: usize = trimmed_pieces.len() - 1;
    let ghost heads = all.drop_last();
    let mut mods: u32 = 0;
    let mut k: usize = 0;
    assert(heads.take(0) =~= Seq::<Seq<char>>::empty());
    while k < last
        invariant
            k <= last,
            last + 1 == trimmed_pieces@.len(),
            trimmed_pieces@.len() == all.len(),
            heads == all.drop_last(),
            all == tokens(s@),
            forall|j: int| 0 <= j < all.len() ==> (#[trigger] all[j]).len() > 0,
            forall|j: int| 0 <= j < all.len() ==> (#[trigger] trimmed_pieces@[j])@ == all[j],
            modifiers(heads.take(k as int)) == Some(mods),
        decreases last - k,
    {
        assert(heads.take(k + 1).drop_last() =~= heads.take(k as int));
        assert(heads.take(k + 1).last() == trimmed_pieces@[k as int]@);
        match parse_modifier(trimmed_pieces[k].as_str()) {
            Some(m) => {
                mods = mods | m;
            },
            None => {
                proof {
                    no_modifiers(heads, k as int);
                }
                return None;
            },
        }
        k = k + 1;
    }
    assert(heads.take(k as int) =~= heads);
    match parse_key(trimmed_pieces[last].as_str()) {
        Some(vk) => Some((mods, vk)),
        None => None,
    }
}

proof fn no_modifiers(heads: Seq<Seq<char>>, k: int)
    requires
        0 <= k < heads.len(),
        modifier(heads[k]) is None,
    ensures
        modifiers(heads) is None,
    decreases heads.len(),
{
    if k < heads.len() - 1 {
        no_modifiers(heads.drop_last(), k);
    }
}

// ---------------------------------------------------------------------------
// What a notation says
// ---------------------------------------------------------------------------
/// Tokens with a `+` between each two.
pub open spec fn with_plus(tokens: Seq<Seq<char>>) -> Seq<char>
    decreases tokens.len(),
{
    if tokens.len() == 0 {
        Seq::empty()
    } else if tokens.len() == 1 {
        tokens[0]
    } else {
        with_plus(tokens.drop_last()).push('+') + tokens.last()
    }
}

/// A token that is not empty, holds no `+`, and has no white space at either end.
pub open spec fn is_token(t: Seq<char>) -> bool {
    &&& t.len() > 0
    &&& forall|i: int| 0 <= i < t.len() ==> #[trigger] t[i] != '+'
    &&& !is_space(t[0]) && !is_space(t.last())
}

proof fn tokens_come_back(all: Seq<Seq<char>>)
    requires
        all.len() > 0,
        forall|i: int| 0 <= i < all.len() ==> is_token(#[trigger] all[i]),
    ensures
        split(with_plus(all), '+') == all,
        tokens(with_plus(all)) == all,
    decreases all.len(),
{
    let last = all.last();
    assert(is_token(all[all.len() - 1]));
    if all.len() == 1 {
        split_without_separator(last, '+');
        assert(split(with_plus(all), '+') =~= all);
    } else {
        let head = all.drop_last();
        assert forall|i: int| 0 <= i < head.len() implies is_token(#[trigger] head[i]) by {
            assert(head[i] == all[i]);
        }
        tokens_come_back(head);
        split_at_last_separator(with_plus(head), last, '+');
        assert(head.push(last) =~= all);
    }
    assert forall|i: int| 0 <= i < all.len() implies trimmed(#[trigger] all[i]) == all[i] by {
        assert(is_token(all[i]));
        trimmed_already(all[i]);
    }
    assert(tokens(with_plus(all)) =~= all);
}

/// A list of tokens names a modifier, in any ASCII case.
pub open spec fn names_modifier(tokens: Seq<Seq<char>>, word: Seq<char>) -> bool {
    exists|i: int| 0 <= i < tokens.len() && same_name(word, #[trigger] tokens[i])
}

/// A token is one of the four modifiers, in any ASCII case.
pub open spec fn is_modifier_word(t: Seq<char>) -> bool {
    same_name("ctrl"@, t) || same_name("alt"@, t) || same_name("shift"@, t) || same_name("win"@, t)
}

#[verifier::rlimit(40)]
proof fn modifier_means(t: Seq<char>)
    ensures
        modifier(t) == Some(1u32) <==> same_name("alt"@, t),
        modifier(t) == Some(2u32) <==> same_name("ctrl"@, t),
        modifier(t) == Some(4u32) <==> same_name("shift"@, t),
        modifier(t) == Some(8u32) <==> same_name("win"@, t),
        modifier(t) is Some ==> modifier(t)->0 == 1 || modifier(t)->0 == 2 || modifier(t)->0 == 4
            || modifier(t)->0 == 8,
        modifier(t) is Some <==> is_modifier_word(t),
{
    reveal_strlit("ctrl");
    reveal_strlit("alt");
    reveal_strlit("shift");
    reveal_strlit("win");
    assert(fold("ctrl"@) =~= "ctrl"@);
    assert(fold("alt"@) =~= "alt"@);
    assert(fold("shift"@) =~= "shift"@);
    assert(fold("win"@) =~= "win"@);
    same_name_means("ctrl"@, t);
    same_name_means("alt"@, t);
    same_name_means("shift"@, t);
    same_name_means("win"@, t);
    assert("ctrl"@.len() == 4 && "alt"@.len() == 3 && "shift"@.len() == 5 && "win"@.len() == 3);
    assert("alt"@[0] != "win"@[0]);
}

proof fn named_so_far(all: Seq<Seq<char>>, word: Seq<char>)
    requires
        all.len() > 0,
    ensures
        names_modifier(all, word) <==> names_modifier(all.drop_last(), word) || same_name(
            word,
            all.last(),
        ),
{
    let head = all.drop_last();
    if names_modifier(all, word) {
        let i = choose|i: int| 0 <= i < all.len() && same_name(word, #[trigger] all[i]);
        if i < head.len() {
            assert(same_name(word, head[i]));
        }
    }
    if names_modifier(head, word) {
        let i = choose|i: int| 0 <= i < head.len() && same_name(word, #[trigger] head[i]);
        assert(same_name(word, all[i]));
    }
    if same_name(word, all.last()) {
        assert(same_name(word, all[all.len() - 1]));
    }
}

#[verifier::rlimit(40)]
proof fn modifiers_mean(all: Seq<Seq<char>>)
    ensures
        modifiers(all) is Some <==> forall|i: int|
            0 <= i < all.len() ==> is_modifier_word(#[trigger] all[i]),
        modifiers(all) is Some ==> {
            let m = modifiers(all)->0;
            &&& m < 16
            &&& m & 1 != 0 <==> names_modifier(all, "alt"@)
            &&& m & 2 != 0 <==> names_modifier(all, "ctrl"@)
            &&& m & 4 != 0 <==> names_modifier(all, "shift"@)
            &&& m & 8 != 0 <==> names_modifier(all, "win"@)
        },
    decreases all.len(),
{
    if all.len() == 0 {
        assert(0u32 & 1 == 0 && 0u32 & 2 == 0 && 0u32 & 4 == 0 && 0u32 & 8 == 0) by (bit_vector);
    } else {
        let head = all.drop_last();
        modifiers_mean(head);
        modifier_means(all.last());
        named_so_far(all, "alt"@);
        named_so_far(all, "ctrl"@);
        named_so_far(all, "shift"@);
        named_so_far(all, "win"@);
        if modifiers(all) is Some {
            let m = modifiers(head)->0;
            let x = modifier(all.last())->0;
            assert((m | x) < 16 && ((m | x) & 1 != 0 <==> m & 1 != 0 || x == 1) && ((m | x) & 2 != 0
                <==> m & 2 != 0 || x == 2) && ((m | x) & 4 != 0 <==> m & 4 != 0 || x == 4) && ((m
                | x) & 8 != 0 <==> m & 8 != 0 || x == 8)) by (bit_vector)
                requires
                    m < 16,
                    x == 1 || x == 2 || x == 4 || x == 8,
            ;
            assert forall|i: int| 0 <= i < all.len() implies is_modifier_word(
                #[trigger] all[i],
            ) by {
                if i < head.len() {
                    assert(is_modifier_word(head[i]));
                }
            }
        }
        if forall|i: int| 0 <= i < all.len() ==> is_modifier_word(#[trigger] all[i]) {
            assert forall|i: int| 0 <= i < head.len() implies is_modifier_word(
                #[trigger] head[i],
            ) by {
                assert(head[i] == all[i]);
            }
            assert(is_modifier_word(all[all.len() - 1]));
        }
    }
}

/// A notation of tokens is a hotkey exactly when every token before the last is a modifier,
/// in any ASCII case, and the last is a key. Its modifiers are then those that are named,
/// whatever their order, each under the bit that Windows gives it.
#[verifier::rlimit(40)]
pub proof fn hotkey_means_its_tokens(all: Seq<Seq<char>>)
    requires
        all.len() > 0,
        forall|i: int| 0 <= i < all.len() ==> is_token(#[trigger] all[i]),
    ensures
        hotkey(with_plus(all)) is Some <==> key_code(all.last()) is Some && forall|i: int|
            0 <= i < all.len() - 1 ==> is_modifier_word(#[trigger] all[i]),
        hotkey(with_plus(all)) is Some ==> {
            let h = hotkey(with_plus(all))->0;
            let heads = all.drop_last();
            &&& h.0 < 16
            &&& h.0 & 1 != 0 <==> names_modifier(heads, "alt"@)
            &&& h.0 & 2 != 0 <==> names_modifier(heads, "ctrl"@)
            &&& h.0 & 4 != 0 <==> names_modifier(heads, "shift"@)
            &&& h.0 & 8 != 0 <==> names_modifier(heads, "win"@)
            &&& Some(h.1) == key_code(all.last())
        },
{
    tokens_come_back(all);
    let heads = all.drop_last();
    modifiers_mean(heads);
    assert forall|i: int| 0 <= i < all.len() implies (#[trigger] all[i]).len() > 0 by {
        assert(is_token(all[i]));
    }
    if forall|i: int| 0 <= i < all.len() - 1 ==> is_modifier_word(#[trigger] all[i]) {
        assert forall|i: int| 0 <= i < heads.len() implies is_modifier_word(#[trigger] heads[i]) by {
            assert(heads[i] == all[i]);
        }
    }
    if modifiers(heads) is Some {
        assert forall|i: int| 0 <= i < all.len() - 1 implies is_modifier_word(
            #[trigger] all[i],
        ) by {
            assert(heads[i] == all[i]);
        }
    }
}

/// A single character is the key of its upper-case form; `f` or `F` before a number from 1
/// to 24 is the function key of that number, and before any other number it is no key.
pub proof fn keys_have_their_codes(c: char, f: char, n: nat)
    requires
        f == 'f' || f == 'F',
    ensures
        key_code(seq![c]) == Some(
            if 'a' <= c && c <= 'z' {
                (c as u32 - 32) as u32
            } else {
                c as u32
            },
        ),
        1 <= n <= 24 ==> key_code(seq![f] + decimal(n)) == Some((0x6f + n) as u32),
        n == 0 || n > 24 ==> key_code(seq![f] + decimal(n)) is None,
{
    let t = seq![f] + decimal(n);
    decimal_is_number(n);
    decimal_reads_back(n);
    let low = fold(t);
    assert(low[0] == 'f');
    assert(low.skip(1) =~= decimal(n)) by {
        assert forall|i: int| 0 <= i < decimal(n).len() implies low.skip(1)[i]
            == decimal(n)[i] by {
            assert(is_digit(decimal(n)[i]));
            assert(t[i + 1] == decimal(n)[i]);
        }
    }
}

} // verus!
