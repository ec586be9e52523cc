//! Parsing and editing of a commit-message draft.
//!
//! A draft conventionally reads `type: description`, split at the first
//! colon. Editing the type replaces only the type token; the description
//! (everything after the first colon, trimmed of surrounding whitespace) is
//! carried forward verbatim. A draft with no colon is all description.

use vstd::prelude::*;
use vstd::string::*;

verus! {

/// Whitespace trimmed from the ends of a description: the characters with
/// Unicode's White_Space property, as `str::trim` removes them.
pub open spec fn is_space(c: char) -> bool {
    ||| c == '\t'
    ||| c == '\n'
    ||| c == '\u{0B}'
    ||| c == '\u{0C}'
    ||| c == '\r'
    ||| c == ' '
    ||| c == '\u{85}'
    ||| c == '\u{A0}'
    ||| c == '\u{1680}'
    ||| c == '\u{2000}'
    ||| c == '\u{2001}'
    ||| c == '\u{2002}'
    ||| c == '\u{2003}'
    ||| c == '\u{2004}'
    ||| c == '\u{2005}'
    ||| c == '\u{2006}'
    ||| c == '\u{2007}'
    ||| c == '\u{2008}'
    ||| c == '\u{2009}'
    ||| c == '\u{200A}'
    ||| c == '\u{2028}'
    ||| c == '\u{2029}'
    ||| c == '\u{202F}'
    ||| c == '\u{205F}'
    ||| c == '\u{3000}'
}

/// `i` is the position of the first colon of `s`.
pub open spec fn is_first_colon(s: Seq<char>, i: int) -> bool {
    &&& 0 <= i < s.len()
    &&& s[i] == ':'
    &&& forall|j: int| 0 <= j < i ==> s[j] != ':'
}

pub open spec fn has_colon(s: Seq<char>) -> bool {
    exists|i: int| is_first_colon(s, i)
}

pub open spec fn trim_front(s: Seq<char>) -> Seq<char>
    decreases s.len(),
{
    if s.len() > 0 && is_space(s[0]) {
        trim_front(s.subrange(1, s.len() as int))
    } else {
        s
    }
}

pub open spec fn trim_back(s: Seq<char>) -> Seq<char>
    decreases s.len(),
{
    if s.len() > 0 && is_space(s[s.len() - 1]) {
        trim_back(s.subrange(0, s.len() - 1))
    } else {
        s
    }
}

/// `s` with leading and trailing whitespace removed.
pub open spec fn trimmed(s: Seq<char>) -> Seq<char> {
    trim_back(trim_front(s))
}

/// The description carried by a draft: everything after the first colon,
/// trimmed; the whole draft, trimmed, when there is no colon.
pub open spec fn description_of(s: Seq<char>) -> Seq<char> {
    if has_colon(s) {
        let i = choose|i: int| is_first_colon(s, i);
        trimmed(s.subrange(i + 1, s.len() as int))
    } else {
        trimmed(s)
    }
}

/// A draft re-typed to `ty`: the new type token, a colon and a single space,
/// then the draft's description unchanged.
pub open spec fn retyped(ty: Seq<char>, draft: Seq<char>) -> Seq<char> {
    ty + ": "@ + description_of(draft)
}

proof fn lemma_first_colon_unique(s: Seq<char>, i: int, j: int)
    requires
        is_first_colon(s, i),
        is_first_colon(s, j),
    ensures
        i == j,
{
    if i < j {
        assert(s[i] != ':');
    } else if j < i {
        assert(s[j] != ':');
    }
}

proof fn lemma_trim_front_range(s: Seq<char>, a: int)
    requires
        0 <= a <= s.len(),
        forall|j: int| 0 <= j < a ==> is_space(s[j]),
        a == s.len() || !is_space(s[a]),
    ensures
        trim_front(s) == s.subrange(a, s.len() as int),
    decreases a,
{
    if a == 0 {
        if s.len() > 0 && is_space(s[0]) {
            assert(!is_space(s[0]));
        }
        assert(s.subrange(0, s.len() as int) =~= s);
    } else {
        let s1 = s.subrange(1, s.len() as int);
        assert(forall|j: int| 0 <= j < a - 1 ==> is_space(s1[j]));
        lemma_trim_front_range(s1, a - 1);
        assert(s1.subrange(a - 1, s1.len() as int) =~= s.subrange(a, s.len() as int));
    }
}

proof fn lemma_trim_back_range(s: Seq<char>, b: int)
    requires
        0 <= b <= s.len(),
        forall|j: int| b <= j < s.len() ==> is_space(s[j]),
        b == 0 || !is_space(s[b - 1]),
    ensures
        trim_back(s) == s.subrange(0, b),
    decreases s.len() - b,
{
    if b == s.len() {
        if s.len() > 0 && is_space(s[s.len() - 1]) {
            assert(!is_space(s[b - 1]));
        }
        assert(s.subrange(0, s.len() as int) =~= s);
    } else {
        let s1 = s.subrange(0, s.len() - 1);
        lemma_trim_back_range(s1, b);
        assert(s1.subrange(0, b) =~= s.subrange(0, b));
    }
}

/// The position of the first colon of `s`, if `s` has one.
pub fn find_first_colon(s: &str) -> (r: Option<usize>)
    ensures
        match r {
            Some(i) => is_first_colon(s@, i as int),
            None => !has_colon(s@),
        },
{
    let n = s.unicode_len();
    let mut i: usize = 0;
    while i < n
        invariant
            0 <= i <= n,
            n == s@.len(),
            forall|j: int| 0 <= j < i ==> s@[j] != ':',
        decreases n - i,
    {
        if s.get_char(i) == ':' {
            return Some(i);
        }
        i = i + 1;
    }
    proof {
        assert forall|k: int| !is_first_colon(s@, k) by {
            if 0 <= k < s@.len() {
                assert(s@[k] != ':');
            }
        }
    }
    None
}

/// `s` with leading and trailing whitespace removed.
pub fn trim_str(s: &str) -> (r: &str)
    ensures
        r@ == trimmed(s@),
{
    let n = s.unicode_len();
    let mut a: usize = 0;
    while a < n && is_space_char(s.get_char(a))
        invariant
            0 <= a <= n,
            n == s@.len(),
            forall|j: int| 0 <= j < a ==> is_space(s@[j]),
        decreases n - a,
    {
        a = a + 1;
    }
    let mut b: usize = n;
    while b > a && is_space_char(s.get_char(b - 1))
        invariant
            a <= b <= n,
            n == s@.len(),
            forall|j: int| b <= j < n ==> is_space(s@[j]),
        decreases b,
    {
        b = b - 1;
    }
    proof {
        lemma_trim_front_range(s@, a as int);
        let t = s@.subrange(a as int, s@.len() as int);
        assert(forall|j: int| b - a <= j < t.len() ==> is_space(t[j]));
        if b > a {
            assert(!is_space(t[b - a - 1]));
        }
        lemma_trim_back_range(t, b - a);
        assert(t.subrange(0, b - a) =~= s@.subrange(a as int, b as int));
    }
    s.substring_char(a, b)
}

fn is_space_char(c: char) -> (r: bool)
    ensures
        r == is_space(c),
{
    c == '\t' || c == '\n' || c == '\u{0B}' || c == '\u{0C}' || c == '\r' || c == ' ' || c
        == '\u{85}' || c == '\u{A0}' || c == '\u{1680}' || (c >= '\u{2000}' && c <= '\u{200A}')
        || c == '\u{2028}' || c == '\u{2029}' || c == '\u{202F}' || c == '\u{205F}' || c
        == '\u{3000}'
}

/// The description carried by draft `s`.
pub fn description_part(s: &str) -> (r: &str)
    ensures
        r@ == description_of(s@),
{
    let n = s.unicode_len();
    match find_first_colon(s) {
        Some(i) => {
            let tail = s.substring_char(i + 1, n);
            let r = trim_str(tail);
            proof {
                let w = choose|w: int| is_first_colon(s@, w);
                lemma_first_colon_unique(s@, i as int, w);
            }
            r
        },
        None => trim_str(s),
    }
}

/// The type token of a labelled menu entry: everything before the first
/// colon, or the whole label when it has none.
pub open spec fn token_of(s: Seq<char>) -> Seq<char> {
    if has_colon(s) {
        let i = choose|i: int| is_first_colon(s, i);
        s.subrange(0, i)
    } else {
        s
    }
}

/// The type token of a commit-type menu label such as `feat: New feature`.
pub fn type_token(label: &str) -> (r: &str)
    ensures
        r@ == token_of(label@),
{
    let n = label.unicode_len();
    match find_first_colon(label) {
        Some(i) => {
            let r = label.substring_char(0, i);
            proof {
                let w = choose|w: int| is_first_colon(label@, w);
                lemma_first_colon_unique(label@, i as int, w);
            }
            r
        },
        None => {
            proof {
                assert(label@.subrange(0, n as int) =~= label@);
            }
            label.substring_char(0, n)
        },
    }
}

/// The draft re-typed to `ty`, its description carried forward unchanged.
pub fn apply_type(ty: &str, d: &str) -> (r: String)
    ensures
        r@ == retyped(ty@, d@),
{
    let desc = description_part(d);
    let head = String::from_str(ty);
    let head = head.concat(": ");
    head.concat(desc)
}

} // verus!
