//! Text that selectable elements paint: the key that ties a painted run to
//! its element, and offsets in the units JavaScript counts in.

use vstd::prelude::*;

use crate::text::{chars_of, decimal, lemma_decimal_digits, lemma_decimal_injective, push_decimal};

verus! {

/// How many bytes UTF-8 spends on `c`.
pub open spec fn utf8_len(c: char) -> nat {
    let n = c as u32;
    if n < 0x80 {
        1
    } else if n < 0x800 {
        2
    } else if n < 0x10000 {
        3
    } else {
        4
    }
}

/// How many UTF-16 code units `c` takes.
pub open spec fn utf16_len(c: char) -> nat {
    if (c as u32) < 0x10000 {
        1
    } else {
        2
    }
}

/// The UTF-8 length of `s` in bytes.
pub open spec fn utf8_size(s: Seq<char>) -> nat
    decreases s.len(),
{
    if s.len() == 0 {
        0
    } else {
        utf8_size(s.drop_last()) + utf8_len(s.last())
    }
}

/// The UTF-16 length of `s` in code units.
pub open spec fn utf16_size(s: Seq<char>) -> nat
    decreases s.len(),
{
    if s.len() == 0 {
        0
    } else {
        utf16_size(s.drop_last()) + utf16_len(s.last())
    }
}

/// `byte` falls between two characters of `s` (or at either end).
pub open spec fn is_char_boundary(s: Seq<char>, byte: int) -> bool {
    exists|k: int| 0 <= k <= s.len() && #[trigger] utf8_size(s.take(k)) == byte
}

/// How many characters of `s` lie before byte `byte`, counting the whole
/// text when `byte` is past its end.
pub open spec fn chars_before(s: Seq<char>, byte: int) -> int {
    let target = if byte < utf8_size(s) { byte } else { utf8_size(s) as int };
    choose|k: int| 0 <= k <= s.len() && #[trigger] utf8_size(s.take(k)) == target
}

/// Each further character adds bytes, and never fewer bytes than UTF-16
/// code units.
pub proof fn lemma_utf8_prefix(s: Seq<char>, i: int, j: int)
    requires
        0 <= i < j <= s.len(),
    ensures
        utf8_size(s.take(i)) < utf8_size(s.take(j)),
        utf16_size(s.take(j)) <= utf8_size(s.take(j)),
    decreases j,
{
    let t = s.take(j);
    assert(t.drop_last() =~= s.take(j - 1));
    if i < j - 1 {
        lemma_utf8_prefix(s, i, j - 1);
    } else if j - 1 > 0 {
        lemma_utf8_prefix(s, 0, j - 1);
    } else {
        assert(s.take(0) =~= Seq::<char>::empty());
    }
}

/// Byte offset `byte` into `text` as a UTF-16 code-unit offset, so a log
/// speaks JavaScript's units. A `byte` past the end counts the whole text.
pub fn utf16_offset(text: &str, byte: usize) -> (n: usize)
    requires
        byte >= utf8_size(text@) || is_char_boundary(text@, byte as int),
        utf8_size(text@) <= usize::MAX,
    ensures
        n == utf16_size(text@.take(chars_before(text@, byte as int))),
        n <= byte,
{
    let chars = chars_of(text);
    let ghost s = text@;
    let ghost total = utf8_size(s);
    let ghost target: int = if byte < total { byte as int } else { total as int };
    let mut i: usize = 0;
    let mut bytes: usize = 0;
    let mut units: usize = 0;
    assert(s.take(0) =~= Seq::<char>::empty());
    while i < chars.len() && bytes < byte
        invariant
            chars@ == s,
            total == utf8_size(s),
            total <= usize::MAX,
            byte >= total || is_char_boundary(s, byte as int),
            target == (if byte < total { byte as int } else { total as int }),
            i <= s.len(),
            bytes == utf8_size(s.take(i as int)),
            units == utf16_size(s.take(i as int)),
            bytes <= target,
        decreases s.len() - i,
    {
        let c = chars[i];
        let ghost t = s.take(i + 1);
        proof {
            assert(t.drop_last() =~= s.take(i as int));
            assert(t.last() == c);
            assert(s.take(s.len() as int) =~= s);
            if i + 1 < s.len() {
                lemma_utf8_prefix(s, i + 1, s.len() as int);
            }
            lemma_utf8_prefix(s, i as int, i + 1);
            if byte < total {
                let k = choose|k: int| 0 <= k <= s.len() && #[trigger] utf8_size(s.take(k)) == byte;
                if k <= i {
                    if k < i {
                        lemma_utf8_prefix(s, k, i as int);
                    }
                    assert(false);
                }
                if i + 1 < k {
                    lemma_utf8_prefix(s, i + 1, k);
                }
            }
        }
        let n = c as u32;
        let (b, u): (usize, usize) = if n < 0x80 {
            (1, 1)
        } else if n < 0x800 {
            (2, 1)
        } else if n < 0x10000 {
            (3, 1)
        } else {
            (4, 2)
        };
        bytes = bytes + b;
        units = units + u;
        i = i + 1;
    }
    proof {
        assert(s.take(s.len() as int) =~= s);
        assert(bytes == target) by {
            if bytes < byte {
                assert(i == s.len());
            }
        }
        let k = chars_before(s, byte as int);
        assert(0 <= k <= s.len() && utf8_size(s.take(k)) == target);
        if k < i {
            lemma_utf8_prefix(s, k, i as int);
        } else if i < k {
            lemma_utf8_prefix(s, i as int, k);
        }
        if i > 0 {
            lemma_utf8_prefix(s, 0, i as int);
        }
    }
    units
}

/// The selection key of a painted run: the element's id, a colon, and
/// `sub`, which tells apart the runs one element paints (such as the lines
/// of a code block).
pub fn selection_key(element_id: u64, sub: usize) -> (key: String)
    ensures
        key@ == decimal(element_id as nat) + ":"@ + decimal(sub as nat),
{
    let mut key = String::new();
    push_decimal(&mut key, element_id);
    key.append(":");
    push_decimal(&mut key, sub as u64);
    key
}

/// Two runs have the same selection key only when they are the same run of
/// the same element.
pub proof fn lemma_selection_key_distinct(a: u64, s: usize, b: u64, t: usize)
    requires
        decimal(a as nat) + ":"@ + decimal(s as nat) == decimal(b as nat) + ":"@ + decimal(t as nat),
    ensures
        a == b,
        s == t,
{
    reveal_strlit(":");
    let da = decimal(a as nat);
    let db = decimal(b as nat);
    let x = da + ":"@ + decimal(s as nat);
    let y = db + ":"@ + decimal(t as nat);
    lemma_decimal_digits(a as nat);
    lemma_decimal_digits(b as nat);
    if da.len() < db.len() {
        assert(x[da.len() as int] == ':');
        assert(y[da.len() as int] == db[da.len() as int]);
        assert(false);
    } else if db.len() < da.len() {
        assert(y[db.len() as int] == ':');
        assert(x[db.len() as int] == da[db.len() as int]);
        assert(false);
    }
    assert(x.take(da.len() as int) =~= da);
    assert(y.take(db.len() as int) =~= db);
    lemma_decimal_injective(a as nat, b as nat);
    assert(x.skip(da.len() as int + 1) =~= decimal(s as nat));
    assert(y.skip(db.len() as int + 1) =~= decimal(t as nat));
    lemma_decimal_injective(s as nat, t as nat);
}

} // verus!
