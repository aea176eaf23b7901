//! Key bindings: which keys a binding asks for, and whether the keys that
//! are pressed are those keys.
//!
//! A binding is a list of chords set apart by `|`; a chord is a list of
//! key names set apart by `+`. Spaces in a chord mean nothing. A chord is
//! met when the keys that are pressed are exactly its keys, in any order.

use crate::chars::{chars_of, copy_range, lowercase, str_eq, string_from_chars};
use vstd::prelude::*;
use vstd::seq_lib::group_to_multiset_ensures;

verus! {

/// `s` without the characters `c`.
pub open spec fn without(s: Seq<char>, c: char) -> Seq<char>
    decreases s.len(),
{
    if s.len() == 0 {
        s
    } else if s.last() == c {
        without(s.drop_last(), c)
    } else {
        without(s.drop_last(), c).push(s.last())
    }
}

/// The pieces that the separator `sep` cuts `s` into. There is one piece
/// more than there are separators; a piece may be empty.
pub open spec fn pieces(s: Seq<char>, sep: char) -> Seq<Seq<char>>
    decreases s.len(),
{
    if s.len() == 0 {
        seq![Seq::empty()]
    } else if s.last() == sep {
        pieces(s.drop_last(), sep).push(Seq::empty())
    } else {
        let before = pieces(s.drop_last(), sep);
        before.drop_last().push(before.last().push(s.last()))
    }
}

/// The key names of a chord.
pub open spec fn chord_names(chord: Seq<char>) -> Seq<Seq<char>> {
    pieces(without(chord, ' '), '+')
}

/// Whether the keys `pressed` are the keys of the chord `chord`, each as
/// often as the chord names it.
pub open spec fn chord_met(chord: Seq<char>, pressed: Seq<Seq<char>>) -> bool {
    chord_names(chord).to_multiset() == pressed.to_multiset()
}

/// Whether the keys `pressed` meet one of the chords of `binding`.
pub open spec fn binding_met(binding: Seq<char>, pressed: Seq<Seq<char>>) -> bool {
    exists|i: int|
        0 <= i < pieces(binding, '|').len() && chord_met(
            #[trigger] pieces(binding, '|')[i],
            pressed,
        )
}

/// The names of `names`, as mathematics.
pub open spec fn name_views(names: Seq<Vec<char>>) -> Seq<Seq<char>> {
    Seq::new(names.len(), |i: int| names[i]@)
}

/// The keys of `keys`, as mathematics.
pub open spec fn key_views(keys: Seq<String>) -> Seq<Seq<char>> {
    Seq::new(keys.len(), |i: int| keys[i]@)
}

/// The pieces that `sep` cuts `s` into.
pub(crate) fn split(s: &Vec<char>, sep: char) -> (out: Vec<Vec<char>>)
    ensures
        name_views(out@) == pieces(s@, sep),
{
    let mut out: Vec<Vec<char>> = Vec::new();
    let mut piece: Vec<char> = Vec::new();
    let mut i: usize = 0;
    proof {
        assert(s@.subrange(0, 0) =~= Seq::<char>::empty());
        assert(name_views(out@).push(piece@) =~= seq![Seq::<char>::empty()]);
    }
    while i < s.len()
        invariant
            i <= s@.len(),
            name_views(out@).push(piece@) == pieces(s@.subrange(0, i as int), sep),
        decreases s@.len() - i,
    {
        let c = s[i];
        proof {
            let t = s@.subrange(0, i + 1);
            assert(t.drop_last() =~= s@.subrange(0, i as int));
            assert(t.last() == c);
            let before = pieces(t.drop_last(), sep);
            assert(before.last() == piece@);
            assert(before.drop_last() =~= name_views(out@));
        }
        if c == sep {
            proof {
                assert(name_views(out@.push(piece)) =~= name_views(out@).push(piece@));
            }
            out.push(piece);
            piece = Vec::new();
        } else {
            piece.push(c);
        }
        i += 1;
    }
    proof {
        assert(s@.subrange(0, s@.len() as int) =~= s@);
        assert(name_views(out@.push(piece)) =~= name_views(out@).push(piece@));
    }
    out.push(piece);
    out
}

/// `s` without its spaces.
fn strip_spaces(s: &Vec<char>) -> (out: Vec<char>)
    ensures
        out@ == without(s@, ' '),
{
    let mut out: Vec<char> = Vec::new();
    let mut i: usize = 0;
    proof {
        assert(s@.subrange(0, 0) =~= Seq::<char>::empty());
    }
    while i < s.len()
        invariant
            i <= s@.len(),
            out@ == without(s@.subrange(0, i as int), ' '),
        decreases s@.len() - i,
    {
        proof {
            let t = s@.subrange(0, i + 1);
            assert(t.drop_last() =~= s@.subrange(0, i as int));
            assert(t.last() == s@[i as int]);
        }
        if s[i] != ' ' {
            out.push(s[i]);
        }
        i += 1;
    }
    proof {
        assert(s@.subrange(0, s@.len() as int) =~= s@);
    }
    out
}

/// Whether `a` and `b` hold the same characters.
fn same_chars(a: &Vec<char>, b: &Vec<char>) -> (same: bool)
    ensures
        same == (a@ == b@),
{
    if a.len() != b.len() {
        return false;
    }
    let mut i: usize = 0;
    while i < a.len()
        invariant
            i <= a@.len() == b@.len(),
            forall|j: int| 0 <= j < i ==> a@[j] == b@[j],
        decreases a@.len() - i,
    {
        if a[i] != b[i] {
            return false;
        }
        i += 1;
    }
    proof {
        assert(a@ =~= b@);
    }
    true
}

/// The index of a name of `names` that is `name`.
fn position(names: &Vec<Vec<char>>, name: &Vec<char>) -> (found: Option<usize>)
    ensures
        match found {
            Some(i) => i < names@.len() && names@[i as int]@ == name@,
            None => !name_views(names@).contains(name@),
        },
{
    let mut i: usize = 0;
    while i < names.len()
        invariant
            i <= names@.len(),
            forall|j: int| 0 <= j < i ==> names@[j]@ != name@,
        decreases names@.len() - i,
    {
        if same_chars(&names[i], name) {
            return Some(i);
        }
        i += 1;
    }
    proof {
        if name_views(names@).contains(name@) {
            let j = choose|j: int|
                0 <= j < name_views(names@).len() && name_views(names@)[j] == name@;
            assert(names@[j]@ == name@);
        }
    }
    None
}

/// A sequence holds what it holds without one of its names, and that
/// name once more.
proof fn lemma_take_out(s: Seq<Seq<char>>, i: int)
    requires
        0 <= i < s.len(),
    ensures
        s.to_multiset() == s.remove(i).to_multiset().insert(s[i]),
        s.to_multiset().count(s[i]) > 0,
{
    broadcast use group_to_multiset_ensures;

    assert(s.contains(s[i]));
    assert(s.remove(i).to_multiset() == s.to_multiset().remove(s[i]));
    assert(s.to_multiset() =~= s.to_multiset().remove(s[i]).insert(s[i]));
}

/// A name that a sequence does not hold is counted no times in it.
proof fn lemma_absent(s: Seq<Seq<char>>, x: Seq<char>)
    requires
        !s.contains(x),
    ensures
        s.to_multiset().count(x) == 0,
{
    broadcast use group_to_multiset_ensures;

}

/// Only the empty sequence holds nothing.
proof fn lemma_holds_nothing(s: Seq<Seq<char>>)
    ensures
        s.to_multiset() == Seq::<Seq<char>>::empty().to_multiset() <==> s.len() == 0,
{
    broadcast use group_to_multiset_ensures;

    assert(Seq::<Seq<char>>::empty().to_multiset().len() == 0);
    assert(s.to_multiset().len() == s.len());
    if s.len() == 0 {
        assert(s =~= Seq::<Seq<char>>::empty());
    }
}

/// Whether `wanted` and `pressed` hold the same names, each as often.
fn same_names(wanted: &Vec<Vec<char>>, pressed: Vec<Vec<char>>) -> (same: bool)
    ensures
        same == (name_views(wanted@).to_multiset() == name_views(pressed@).to_multiset()),
{
    let ghost w = name_views(wanted@);
    let ghost p = name_views(pressed@);
    let mut left = pressed;
    let mut i: usize = 0;
    proof {
        assert(w.subrange(0, w.len() as int) =~= w);
    }
    while i < wanted.len()
        invariant
            i <= wanted@.len(),
            w == name_views(wanted@),
            p == name_views(pressed@),
            (w.to_multiset() == p.to_multiset()) <==> (w.subrange(i as int, w.len() as int).to_multiset()
                == name_views(left@).to_multiset()),
        decreases wanted@.len() - i,
    {
        let ghost rest = w.subrange(i as int, w.len() as int);
        let ghost next = w.subrange(i + 1, w.len() as int);
        let ghost l = name_views(left@);
        proof {
            assert(rest.remove(0) =~= next);
            assert(rest[0] == wanted@[i as int]@);
            lemma_take_out(rest, 0);
        }
        match position(&left, &wanted[i]) {
            Some(j) => {
                left.remove(j);
                proof {
                    let x = rest[0];
                    let l2 = name_views(left@);
                    assert(l2 =~= l.remove(j as int));
                    assert(l[j as int] == x);
                    lemma_take_out(l, j as int);
                    if next.to_multiset() == l2.to_multiset() {
                        assert(rest.to_multiset() == l.to_multiset());
                    }
                    if rest.to_multiset() == l.to_multiset() {
                        assert(next.to_multiset() =~= rest.to_multiset().remove(x));
                        assert(l2.to_multiset() =~= l.to_multiset().remove(x));
                    }
                }
            },
            None => {
                proof {
                    lemma_absent(l, rest[0]);
                    assert(rest.to_multiset().count(rest[0]) != l.to_multiset().count(rest[0]));
                    assert(rest.to_multiset() != l.to_multiset());
                }
                return false;
            },
        }
        i += 1;
    }
    proof {
        assert(w.subrange(w.len() as int, w.len() as int) =~= Seq::<Seq<char>>::empty());
        lemma_holds_nothing(name_views(left@));
    }
    left.len() == 0
}

/// The key names of a chord: the chord without its spaces, cut at `+`.
pub fn chord_keys(chord: &str) -> (names: Vec<Vec<char>>)
    ensures
        name_views(names@) == chord_names(chord@),
{
    let chars = chars_of(chord);
    split(&strip_spaces(&chars), '+')
}

/// Whether the keys `pressed` meet one of the chords of `binding`: whether
/// they are exactly the keys of that chord, in any order.
pub fn binding_matches(binding: &str, pressed: &Vec<String>) -> (met: bool)
    ensures
        met == binding_met(binding@, key_views(pressed@)),
{
    let mut keys: Vec<Vec<char>> = Vec::new();
    let mut k: usize = 0;
    while k < pressed.len()
        invariant
            k <= pressed@.len(),
            keys@.len() == k,
            forall|j: int| 0 <= j < k ==> keys@[j]@ == pressed@[j]@,
        decreases pressed@.len() - k,
    {
        keys.push(chars_of(pressed[k].as_str()));
        k += 1;
    }
    proof {
        assert(name_views(keys@) =~= key_views(pressed@));
    }
    let chords = split(&chars_of(binding), '|');
    let mut i: usize = 0;
    while i < chords.len()
        invariant
            i <= chords@.len(),
            name_views(chords@) == pieces(binding@, '|'),
            name_views(keys@) == key_views(pressed@),
            forall|j: int|
                0 <= j < i ==> !chord_met(#[trigger] pieces(binding@, '|')[j], key_views(pressed@)),
        decreases chords@.len() - i,
    {
        let names = split(&strip_spaces(&chords[i]), '+');
        let mut copy: Vec<Vec<char>> = Vec::new();
        let mut m: usize = 0;
        while m < keys.len()
            invariant
                m <= keys@.len(),
                copy@.len() == m,
                forall|j: int| 0 <= j < m ==> copy@[j]@ == keys@[j]@,
            decreases keys@.len() - m,
        {
            copy.push(copy_range(&keys[m], 0, keys[m].len()));
            proof {
                assert(keys@[m as int]@.subrange(0, keys@[m as int]@.len() as int)
                    =~= keys@[m as int]@);
            }
            m += 1;
        }
        proof {
            assert(name_views(copy@) =~= name_views(keys@));
            assert(name_views(chords@)[i as int] == chords@[i as int]@);
        }
        if same_names(&names, copy) {
            proof {
                assert(chord_met(pieces(binding@, '|')[i as int], key_views(pressed@)));
            }
            return true;
        }
        i += 1;
    }
    proof {
        assert(name_views(chords@).len() == chords@.len());
    }
    false
}

/// The name of the key that a terminal calls `code`: its name in lower
/// case and without spaces. The key that tabs back goes by the name of the
/// tab key.
pub open spec fn key_name(code: Seq<char>) -> Seq<char> {
    let name = lowercase(without(code, ' '));
    if name == "backtab"@ {
        "tab"@
    } else {
        name
    }
}

/// The name of the modifier that a terminal calls `modifier`: its name in
/// lower case and without spaces, and `ctrl` for the control key.
pub open spec fn modifier_name(modifier: Seq<char>) -> Seq<char> {
    let name = without(lowercase(modifier), ' ');
    if name == "control"@ {
        "ctrl"@
    } else {
        name
    }
}

/// The names of the modifiers in `modifiers`, which a terminal sets apart
/// by `+`.
pub open spec fn modifier_names(modifiers: Seq<char>) -> Seq<Seq<char>> {
    Seq::new(
        pieces(modifiers, '+').len(),
        |i: int| modifier_name(pieces(modifiers, '+')[i]),
    )
}

/// The names that one key press brings: the name of the key, unless it is
/// empty, and the names of the modifiers held with it, if any.
pub open spec fn press_names(code: Seq<char>, modifiers: Seq<char>) -> Seq<Seq<char>> {
    let key = if key_name(code).len() > 0 {
        seq![key_name(code)]
    } else {
        Seq::empty()
    };
    if modifiers.len() > 0 {
        key + modifier_names(modifiers)
    } else {
        key
    }
}

/// The names that one key press brings, from what the terminal calls the
/// key and the modifiers held with it.
pub fn key_names(code: &str, modifiers: &str) -> (names: Vec<String>)
    ensures
        key_views(names@) == press_names(code@, modifiers@),
{
    let mut names: Vec<String> = Vec::new();
    let bare = string_from_chars(strip_spaces(&chars_of(code)));
    let lower = bare.as_str().to_lowercase();
    let key = if str_eq(lower.as_str(), "backtab") {
        "tab".to_owned()
    } else {
        lower
    };
    if key.as_str().unicode_len() > 0 {
        names.push(key);
    }
    let ghost first = key_views(names@);
    proof {
        assert(first =~= if key_name(code@).len() > 0 {
            seq![key_name(code@)]
        } else {
            Seq::empty()
        });
    }
    let held = chars_of(modifiers);
    if held.len() > 0 {
        let parts = split(&held, '+');
        let mut i: usize = 0;
        while i < parts.len()
            invariant
                i <= parts@.len(),
                name_views(parts@) == pieces(modifiers@, '+'),
                key_views(names@) == first + modifier_names(modifiers@).subrange(0, i as int),
            decreases parts@.len() - i,
        {
            let part = string_from_chars(copy_range(&parts[i], 0, parts[i].len()));
            let lower = part.as_str().to_lowercase();
            let bare = string_from_chars(strip_spaces(&chars_of(lower.as_str())));
            let name = if str_eq(bare.as_str(), "control") {
                "ctrl".to_owned()
            } else {
                bare
            };
            proof {
                assert(parts@[i as int]@.subrange(0, parts@[i as int]@.len() as int)
                    =~= parts@[i as int]@);
                assert(name_views(parts@)[i as int] == parts@[i as int]@);
                assert(name@ == modifier_names(modifiers@)[i as int]);
                assert(key_views(names@.push(name)) =~= key_views(names@).push(name@));
                assert((first + modifier_names(modifiers@).subrange(0, i as int)).push(name@)
                    =~= first + modifier_names(modifiers@).subrange(0, i + 1));
            }
            names.push(name);
            i += 1;
        }
        proof {
            assert(name_views(parts@).len() == parts@.len());
            assert(modifier_names(modifiers@).subrange(0, parts@.len() as int)
                =~= modifier_names(modifiers@));
        }
    } else {
        proof {
            assert(first + modifier_names(modifiers@).subrange(0, 0) =~= first);
        }
    }
    names
}

/// Whether `name` is one of `keys`.
fn is_pressed(keys: &Vec<String>, name: &str) -> (b: bool)
    ensures
        b == key_views(keys@).contains(name@),
{
    let mut i: usize = 0;
    while i < keys.len()
        invariant
            i <= keys@.len(),
            forall|j: int| 0 <= j < i ==> keys@[j]@ != name@,
        decreases keys@.len() - i,
    {
        if str_eq(keys[i].as_str(), name) {
            proof {
                assert(key_views(keys@)[i as int] == name@);
            }
            return true;
        }
        i += 1;
    }
    proof {
        if key_views(keys@).contains(name@) {
            let j = choose|j: int| 0 <= j < key_views(keys@).len() && key_views(keys@)[j] == name@;
            assert(keys@[j]@ == name@);
        }
    }
    false
}

/// Adds `name` to the keys that are pressed, unless it is among them.
pub fn press(pressed: &mut Vec<String>, name: String)
    ensures
        key_views(final(pressed)@) == if key_views(old(pressed)@).contains(name@) {
            key_views(old(pressed)@)
        } else {
            key_views(old(pressed)@).push(name@)
        },
{
    if !is_pressed(pressed, name.as_str()) {
        proof {
            assert(key_views(pressed@.push(name)) =~= key_views(pressed@).push(name@));
        }
        pressed.push(name);
    }
}

} // verus!
