use vstd::prelude::*;
use vstd::std_specs::iter::IteratorSpec;

verus! {

/// A single semantic unit of keyboard input.
#[derive(Clone, Copy, Debug, PartialEq, Eq, Structural)]
pub enum Key {
    Char(char),
    Ctrl(char),
    Up,
    Down,
    Left,
    Right,
    Backspace,
    Delete,
    Enter,
    Tab,
    Esc,
}

/// The characters of a string slice, in order.
pub fn chars_of(s: &str) -> (r: Vec<char>)
    ensures
        r@ == s@,
{
    broadcast use vstd::string::group_string_axioms;
    let mut it = s.chars();
    let mut out: Vec<char> = Vec::new();
    loop
        invariant
            it.remaining() == s@.skip(out@.len() as int),
            out@ == s@.take(out@.len() as int),
            out@.len() <= s@.len(),
        ensures
            out@ == s@,
        decreases s@.len() - out@.len(),
    {
        match it.next() {
            Some(c) => {
                out.push(c);
            },
            None => {
                assert(s@.skip(out@.len() as int).len() == 0);
                assert(out@ =~= s@);
                break;
            },
        }
    }
    out
}

/// Whether two character sequences are equal.
pub fn chars_eq(a: &Vec<char>, b: &Vec<char>) -> (r: bool)
    ensures
        r == (a@ == b@),
{
    if a.len() != b.len() {
        return false;
    }
    let mut i: usize = 0;
    while i < a.len()
        invariant
            a@.len() == b@.len(),
            i <= a@.len(),
            a@.take(i as int) == b@.take(i as int),
        decreases a@.len() - i,
    {
        if a[i] != b[i] {
            assert(a@[i as int] != b@[i as int]);
            return false;
        }
        assert(a@.take(i as int + 1) =~= a@.take(i as int).push(a@[i as int]));
        assert(b@.take(i as int + 1) =~= b@.take(i as int).push(b@[i as int]));
        i = i + 1;
    }
    assert(a@ =~= a@.take(i as int));
    assert(b@ =~= b@.take(i as int));
    true
}

/// Whether the characters of `s` equal those of the slice `w`.
pub fn str_eq(s: &str, w: &str) -> (r: bool)
    ensures
        r == (s@ == w@),
{
    let a = chars_of(s);
    let b = chars_of(w);
    chars_eq(&a, &b)
}

/// The key that a key name denotes: a named key (`"up"`, `"enter"`, ...),
/// a control combination (`"ctrl-q"`) or a single printable character.
pub open spec fn key_of_name(s: Seq<char>) -> Option<Key> {
    if s == "up"@ {
        Some(Key::Up)
    } else if s == "down"@ {
        Some(Key::Down)
    } else if s == "left"@ {
        Some(Key::Left)
    } else if s == "right"@ {
        Some(Key::Right)
    } else if s == "backspace"@ {
        Some(Key::Backspace)
    } else if s == "delete"@ {
        Some(Key::Delete)
    } else if s == "enter"@ {
        Some(Key::Enter)
    } else if s == "tab"@ {
        Some(Key::Tab)
    } else if s == "esc"@ {
        Some(Key::Esc)
    } else if s == "space"@ {
        Some(Key::Char(' '))
    } else if s.len() == 6 && s.take(5) == "ctrl-"@ {
        Some(Key::Ctrl(s[5]))
    } else if s.len() == 1 {
        Some(Key::Char(s[0]))
    } else {
        None
    }
}

impl Key {
    /// Parses a key name; a name that denotes no key gives `None`.
    pub fn from_name(name: &str) -> (r: Option<Key>)
        ensures
            r == key_of_name(name@),
    {
        let v = chars_of(name);
        Key::from_chars(&v)
    }

    /// Parses a key name given as characters.
    pub fn from_chars(v: &Vec<char>) -> (r: Option<Key>)
        ensures
            r == key_of_name(v@),
    {
        if chars_eq(v, &chars_of("up")) {
            Some(Key::Up)
        } else if chars_eq(v, &chars_of("down")) {
            Some(Key::Down)
        } else if chars_eq(v, &chars_of("left")) {
            Some(Key::Left)
        } else if chars_eq(v, &chars_of("right")) {
            Some(Key::Right)
        } else if chars_eq(v, &chars_of("backspace")) {
            Some(Key::Backspace)
        } else if chars_eq(v, &chars_of("delete")) {
            Some(Key::Delete)
        } else if chars_eq(v, &chars_of("enter")) {
            Some(Key::Enter)
        } else if chars_eq(v, &chars_of("tab")) {
            Some(Key::Tab)
        } else if chars_eq(v, &chars_of("esc")) {
            Some(Key::Esc)
        } else if chars_eq(v, &chars_of("space")) {
            Some(Key::Char(' '))
        } else if v.len() == 6 {
            let p = chars_of("ctrl-");
            let mut head: Vec<char> = Vec::new();
            let mut i: usize = 0;
            while i < 5
                invariant
                    v@.len() == 6,
                    i <= 5,
                    head@ == v@.take(i as int),
                decreases 5 - i,
            {
                head.push(v[i]);
                assert(v@.take(i as int + 1) =~= v@.take(i as int).push(v@[i as int]));
                i = i + 1;
            }
            if chars_eq(&head, &p) {
                Some(Key::Ctrl(v[5]))
            } else {
                None
            }
        } else if v.len() == 1 {
            Some(Key::Char(v[0]))
        } else {
            None
        }
    }
}

/// Splits `s` at spaces and parses each piece as a key name, from the left:
/// the keys of the pieces closed by a space so far (`None` once one of them
/// names no key), and the piece still open.
pub open spec fn scan_keys(s: Seq<char>) -> (Option<Seq<Key>>, Seq<char>)
    decreases s.len(),
{
    if s.len() == 0 {
        (Some(Seq::empty()), Seq::empty())
    } else {
        let (ks, cur) = scan_keys(s.drop_last());
        if s.last() == ' ' {
            (close_piece(ks, cur), Seq::empty())
        } else {
            (ks, cur.push(s.last()))
        }
    }
}

/// The keys `ks` followed by the key that `piece` names, or `None`.
pub open spec fn close_piece(ks: Option<Seq<Key>>, piece: Seq<char>) -> Option<Seq<Key>> {
    match ks {
        Some(k) => match key_of_name(piece) {
            Some(key) => Some(k.push(key)),
            None => None,
        },
        None => None,
    }
}

/// The key sequence a space-separated list of key names denotes, or `None`
/// where one of the names denotes no key.
pub open spec fn keys_of_names(s: Seq<char>) -> Option<Seq<Key>> {
    let (ks, cur) = scan_keys(s);
    close_piece(ks, cur)
}

/// Parses a space-separated list of key names, such as `"ctrl-x ctrl-s"`.
pub fn parse_keys(s: &str) -> (r: Option<Vec<Key>>)
    ensures
        match r {
            Some(v) => keys_of_names(s@) == Some(v@),
            None => keys_of_names(s@) is None,
        },
{
    let v = chars_of(s);
    let mut keys: Vec<Key> = Vec::new();
    let mut ok = true;
    let mut cur: Vec<char> = Vec::new();
    let mut i: usize = 0;
    while i < v.len()
        invariant
            i <= v@.len(),
            v@ == s@,
            scan_keys(v@.take(i as int)) == (if ok {
                Some(keys@)
            } else {
                None::<Seq<Key>>
            }, cur@),
        decreases v@.len() - i,
    {
        assert(v@.take(i as int + 1).drop_last() =~= v@.take(i as int));
        if v[i] == ' ' {
            if ok {
                match Key::from_chars(&cur) {
                    Some(k) => keys.push(k),
                    None => {
                        ok = false;
                    },
                }
            }
            cur = Vec::new();
        } else {
            cur.push(v[i]);
        }
        i = i + 1;
    }
    assert(v@.take(i as int) =~= v@);
    if !ok {
        return None;
    }
    match Key::from_chars(&cur) {
        Some(k) => {
            keys.push(k);
            Some(keys)
        },
        None => None,
    }
}

/// A list with no space is one key name.
pub proof fn lemma_scan_without_space(s: Seq<char>)
    requires
        forall|i: int| 0 <= i < s.len() ==> s[i] != ' ',
    ensures
        scan_keys(s) == (Some(Seq::<Key>::empty()), s),
    decreases s.len(),
{
    if s.len() > 0 {
        lemma_scan_without_space(s.drop_last());
        assert(s.drop_last().push(s.last()) =~= s);
    }
}

/// The key lists of the default binding table, each a single key.
pub proof fn lemma_default_key_lists()
    ensures
        keys_of_names("up"@) == Some(seq![Key::Up]),
        keys_of_names("down"@) == Some(seq![Key::Down]),
        keys_of_names("left"@) == Some(seq![Key::Left]),
        keys_of_names("right"@) == Some(seq![Key::Right]),
        keys_of_names("ctrl-q"@) == Some(seq![Key::Ctrl('q')]),
        keys_of_names("backspace"@) == Some(seq![Key::Backspace]),
        keys_of_names("delete"@) == Some(seq![Key::Delete]),
        keys_of_names("enter"@) == Some(seq![Key::Enter]),
        keys_of_names("ctrl-z"@) == Some(seq![Key::Ctrl('z')]),
        keys_of_names("ctrl-r"@) == Some(seq![Key::Ctrl('r')]),
        keys_of_names("ctrl-s"@) == Some(seq![Key::Ctrl('s')]),
{
    reveal_strlit("up");
    reveal_strlit("down");
    reveal_strlit("left");
    reveal_strlit("right");
    reveal_strlit("backspace");
    reveal_strlit("delete");
    reveal_strlit("enter");
    reveal_strlit("tab");
    reveal_strlit("esc");
    reveal_strlit("space");
    reveal_strlit("ctrl-");
    reveal_strlit("ctrl-q");
    reveal_strlit("ctrl-z");
    reveal_strlit("ctrl-r");
    reveal_strlit("ctrl-s");
    lemma_scan_without_space("up"@);
    lemma_scan_without_space("down"@);
    lemma_scan_without_space("left"@);
    lemma_scan_without_space("right"@);
    lemma_scan_without_space("backspace"@);
    lemma_scan_without_space("delete"@);
    lemma_scan_without_space("enter"@);
    lemma_scan_without_space("ctrl-q"@);
    lemma_scan_without_space("ctrl-z"@);
    lemma_scan_without_space("ctrl-r"@);
    lemma_scan_without_space("ctrl-s"@);
    assert("ctrl-q"@.take(5) =~= "ctrl-"@);
    assert("ctrl-z"@.take(5) =~= "ctrl-"@);
    assert("ctrl-r"@.take(5) =~= "ctrl-"@);
    assert("ctrl-s"@.take(5) =~= "ctrl-"@);
}

} // verus!
