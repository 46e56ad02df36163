//! Turning an HTML fragment into plain text: every tag `<[^>]+>` and every
//! entity `&(?:[a-zA-Z]+|#\d+);` becomes a space, the ends are trimmed, and
//! every run of whitespace becomes one space.
//!
//! Each step replaces, scanning from the left, every non-overlapping match
//! that starts leftmost, as `Regex::replace_all` does.

use vstd::prelude::*;

use crate::text::{
    ascii_letter, chars_of, decimal_digit, is_ascii_letter, is_decimal_digit, is_white_space,
    is_whitespace, string_of,
};

verus! {

/// The rest of `s` from position `i` on.
pub open spec fn suffix(s: Seq<char>, i: int) -> Seq<char> {
    s.subrange(i, s.len() as int)
}

/// `s[i..k]` is a tag: `<`, one or more characters other than `>`, then `>`.
pub open spec fn is_tag(s: Seq<char>, i: int, k: int) -> bool {
    &&& 0 <= i
    &&& i + 3 <= k
    &&& k <= s.len()
    &&& s[i] == '<'
    &&& s[k - 1] == '>'
    &&& forall|m: int| i < m < k - 1 ==> #[trigger] s[m] != '>'
}

/// `s[i..k]` is an entity: `&`, then one or more ASCII letters, or `#` and
/// one or more decimal digits, then `;`.
pub open spec fn is_entity(s: Seq<char>, i: int, k: int) -> bool {
    &&& 0 <= i
    &&& i + 3 <= k
    &&& k <= s.len()
    &&& s[i] == '&'
    &&& s[k - 1] == ';'
    &&& {
        ||| forall|m: int| i < m < k - 1 ==> is_ascii_letter(#[trigger] s[m])
        ||| {
            &&& i + 4 <= k
            &&& s[i + 1] == '#'
            &&& forall|m: int| i + 1 < m < k - 1 ==> is_decimal_digit(#[trigger] s[m])
        }
    }
}

/// Every tag replaced by a space, matches taken from the left.
pub open spec fn replace_tags(s: Seq<char>) -> Seq<char>
    decreases s.len(),
{
    if s.len() == 0 {
        Seq::empty()
    } else if exists|k: int| is_tag(s, 0, k) {
        let k = choose|k: int| is_tag(s, 0, k);
        seq![' '] + replace_tags(suffix(s, k))
    } else {
        seq![s[0]] + replace_tags(suffix(s, 1))
    }
}

/// Every entity replaced by a space, matches taken from the left.
pub open spec fn replace_entities(s: Seq<char>) -> Seq<char>
    decreases s.len(),
{
    if s.len() == 0 {
        Seq::empty()
    } else if exists|k: int| is_entity(s, 0, k) {
        let k = choose|k: int| is_entity(s, 0, k);
        seq![' '] + replace_entities(suffix(s, k))
    } else {
        seq![s[0]] + replace_entities(suffix(s, 1))
    }
}

/// `s` without its leading whitespace.
pub open spec fn trim_start_ws(s: Seq<char>) -> Seq<char>
    decreases s.len(),
{
    if s.len() > 0 && is_white_space(s[0]) {
        trim_start_ws(suffix(s, 1))
    } else {
        s
    }
}

/// `s` without its trailing whitespace.
pub open spec fn trim_end_ws(s: Seq<char>) -> Seq<char>
    decreases s.len(),
{
    if s.len() > 0 && is_white_space(s[s.len() - 1]) {
        trim_end_ws(s.subrange(0, s.len() - 1))
    } else {
        s
    }
}

/// `s` without leading and trailing whitespace, as `str::trim` gives it.
pub open spec fn trim_ws(s: Seq<char>) -> Seq<char> {
    trim_end_ws(trim_start_ws(s))
}

pub proof fn lemma_trim_start_len(s: Seq<char>)
    ensures
        trim_start_ws(s).len() <= s.len(),
    decreases s.len(),
{
    if s.len() > 0 && is_white_space(s[0]) {
        lemma_trim_start_len(suffix(s, 1));
    }
}

/// Every run of whitespace replaced by one space.
pub open spec fn collapse_ws(s: Seq<char>) -> Seq<char>
    decreases s.len(),
{
    if s.len() == 0 {
        Seq::empty()
    } else if is_white_space(s[0]) {
        proof {
            lemma_trim_start_len(suffix(s, 1));
        }
        seq![' '] + collapse_ws(trim_start_ws(s))
    } else {
        seq![s[0]] + collapse_ws(suffix(s, 1))
    }
}

/// The plain text of an HTML fragment: tags, then entities, become spaces;
/// the ends are trimmed; whitespace runs become single spaces.
pub open spec fn plain_text(raw: Seq<char>) -> Seq<char> {
    collapse_ws(trim_ws(replace_entities(replace_tags(raw))))
}

// ---------------------------------------------------------------------------
// Facts the scanners rely on
// ---------------------------------------------------------------------------

pub(crate) proof fn lemma_tag_unique(s: Seq<char>, i: int, k1: int, k2: int)
    requires
        is_tag(s, i, k1),
        is_tag(s, i, k2),
    ensures
        k1 == k2,
{
    if k1 < k2 {
        assert(s[k1 - 1] != '>');
    } else if k2 < k1 {
        assert(s[k2 - 1] != '>');
    }
}

pub(crate) proof fn lemma_entity_unique(s: Seq<char>, i: int, k1: int, k2: int)
    requires
        is_entity(s, i, k1),
        is_entity(s, i, k2),
    ensures
        k1 == k2,
{
    if k1 < k2 {
        assert(!is_ascii_letter(s[k1 - 1]) && !is_decimal_digit(s[k1 - 1]));
        assert(!is_ascii_letter(s[i + 1]) || s[i + 1] != '#');
    } else if k2 < k1 {
        assert(!is_ascii_letter(s[k2 - 1]) && !is_decimal_digit(s[k2 - 1]));
        assert(!is_ascii_letter(s[i + 1]) || s[i + 1] != '#');
    }
}

proof fn lemma_tag_shift(s: Seq<char>, i: int, k: int)
    requires
        0 <= i <= s.len(),
    ensures
        is_tag(suffix(s, i), 0, k) <==> is_tag(s, i, i + k),
{
    let t = suffix(s, i);
    if is_tag(t, 0, k) {
        assert forall|m: int| i < m < i + k - 1 implies s[m] != '>' by {
            assert(t[m - i] == s[m]);
        }
    }
    if is_tag(s, i, i + k) {
        assert forall|m: int| 0 < m < k - 1 implies t[m] != '>' by {
            assert(t[m] == s[i + m]);
        }
    }
}

proof fn lemma_entity_shift(s: Seq<char>, i: int, k: int)
    requires
        0 <= i <= s.len(),
    ensures
        is_entity(suffix(s, i), 0, k) <==> is_entity(s, i, i + k),
{
    let t = suffix(s, i);
    if is_entity(t, 0, k) {
        if forall|m: int| 0 < m < k - 1 ==> is_ascii_letter(#[trigger] t[m]) {
            assert forall|m: int| i < m < i + k - 1 implies is_ascii_letter(s[m]) by {
                assert(t[m - i] == s[m]);
            }
        } else {
            assert forall|m: int| i + 1 < m < i + k - 1 implies is_decimal_digit(s[m]) by {
                assert(t[m - i] == s[m]);
            }
        }
    }
    if is_entity(s, i, i + k) {
        if forall|m: int| i < m < i + k - 1 ==> is_ascii_letter(#[trigger] s[m]) {
            assert forall|m: int| 0 < m < k - 1 implies is_ascii_letter(t[m]) by {
                assert(t[m] == s[i + m]);
            }
        } else {
            assert forall|m: int| 1 < m < k - 1 implies is_decimal_digit(t[m]) by {
                assert(t[m] == s[i + m]);
            }
        }
    }
}

/// Where `s[i..]` starts with the tag `s[i..k]`, replacing tags in `s[i..]`
/// gives a space followed by the replacement of `s[k..]`.
proof fn lemma_replace_tags_at_tag(s: Seq<char>, i: int, k: int)
    requires
        is_tag(s, i, k),
    ensures
        replace_tags(suffix(s, i)) == seq![' '] + replace_tags(suffix(s, k)),
{
    let t = suffix(s, i);
    lemma_tag_shift(s, i, k - i);
    let k2 = choose|k2: int| is_tag(t, 0, k2);
    lemma_tag_shift(s, i, k2);
    lemma_tag_unique(s, i, k, i + k2);
    assert(suffix(t, k2) == suffix(s, k));
}

/// Where no tag starts at `i`, replacing tags in `s[i..]` keeps `s[i]`.
proof fn lemma_replace_tags_no_tag(s: Seq<char>, i: int)
    requires
        0 <= i < s.len(),
        forall|k: int| !is_tag(s, i, k),
    ensures
        replace_tags(suffix(s, i)) == seq![s[i]] + replace_tags(suffix(s, i + 1)),
{
    let t = suffix(s, i);
    assert forall|k: int| !is_tag(t, 0, k) by {
        lemma_tag_shift(s, i, k);
    }
    assert(suffix(t, 1) == suffix(s, i + 1));
}

/// A text without `>` holds no tag.
pub(crate) proof fn lemma_replace_tags_no_gt(s: Seq<char>)
    requires
        forall|m: int| 0 <= m < s.len() ==> s[m] != '>',
    ensures
        replace_tags(s) == s,
    decreases s.len(),
{
    if s.len() > 0 {
        assert forall|k: int| !is_tag(s, 0, k) by {
            if is_tag(s, 0, k) {
                assert(s[k - 1] == '>');
            }
        }
        lemma_replace_tags_no_gt(suffix(s, 1));
        assert(seq![s[0]] + suffix(s, 1) == s);
    }
}

proof fn lemma_replace_entities_at_entity(s: Seq<char>, i: int, k: int)
    requires
        is_entity(s, i, k),
    ensures
        replace_entities(suffix(s, i)) == seq![' '] + replace_entities(suffix(s, k)),
{
    let t = suffix(s, i);
    lemma_entity_shift(s, i, k - i);
    let k2 = choose|k2: int| is_entity(t, 0, k2);
    lemma_entity_shift(s, i, k2);
    lemma_entity_unique(s, i, k, i + k2);
    assert(suffix(t, k2) == suffix(s, k));
}

proof fn lemma_replace_entities_no_entity(s: Seq<char>, i: int)
    requires
        0 <= i < s.len(),
        forall|k: int| !is_entity(s, i, k),
    ensures
        replace_entities(suffix(s, i)) == seq![s[i]] + replace_entities(suffix(s, i + 1)),
{
    let t = suffix(s, i);
    assert forall|k: int| !is_entity(t, 0, k) by {
        lemma_entity_shift(s, i, k);
    }
    assert(suffix(t, 1) == suffix(s, i + 1));
}

// ---------------------------------------------------------------------------
// The scanners
// ---------------------------------------------------------------------------

/// Replaces every tag in `s` by a space.
pub fn replace_tags_in(s: &Vec<char>) -> (r: Vec<char>)
    ensures
        r@ == replace_tags(s@),
{
    let n = s.len();
    let mut out: Vec<char> = Vec::new();
    let mut i: usize = 0;
    assert(suffix(s@, 0) == s@);
    while i < n
        invariant
            n == s.len(),
            i <= n,
            replace_tags(s@) == out@ + replace_tags(suffix(s@, i as int)),
        decreases n - i,
    {
        if s[i] == '<' {
            let mut j: usize = i + 1;
            while j < n && s[j] != '>'
                invariant
                    n == s.len(),
                    i < j <= n,
                    s@[i as int] == '<',
                    forall|m: int| i < m < j ==> s@[m] != '>',
                decreases n - j,
            {
                j = j + 1;
            }
            if j == n {
                // No `>` follows: the rest holds no tag and is kept as it is.
                proof {
                    lemma_replace_tags_no_gt(suffix(s@, i as int));
                }
                let ghost before = out@;
                let mut m: usize = i;
                while m < n
                    invariant
                        n == s.len(),
                        i <= m <= n,
                        out@ == before + s@.subrange(i as int, m as int),
                    decreases n - m,
                {
                    out.push(s[m]);
                    assert(s@.subrange(i as int, m + 1) == s@.subrange(i as int, m as int).push(
                        s@[m as int],
                    ));
                    m = m + 1;
                }
                assert(suffix(s@, n as int) =~= Seq::<char>::empty());
                i = n;
            } else if j == i + 1 {
                // `<>` is no tag.
                proof {
                    assert forall|k: int| !is_tag(s@, i as int, k) by {
                        if is_tag(s@, i as int, k) {
                            assert(s@[i + 1] != '>');
                        }
                    }
                    lemma_replace_tags_no_tag(s@, i as int);
                }
                out.push('<');
                i = i + 1;
            } else {
                proof {
                    assert(is_tag(s@, i as int, j + 1));
                    lemma_replace_tags_at_tag(s@, i as int, j + 1);
                }
                out.push(' ');
                i = j + 1;
            }
        } else {
            proof {
                assert forall|k: int| !is_tag(s@, i as int, k) by {}
                lemma_replace_tags_no_tag(s@, i as int);
            }
            out.push(s[i]);
            i = i + 1;
        }
    }
    assert(replace_tags(suffix(s@, n as int)) =~= Seq::<char>::empty()) by {
        assert(suffix(s@, n as int).len() == 0);
    }
    assert(out@ + Seq::<char>::empty() == out@);
    out
}

/// The end of the entity that starts at `i`, if one does.
fn entity_end(s: &Vec<char>, i: usize) -> (r: Option<usize>)
    requires
        i < s.len(),
        s@[i as int] == '&',
    ensures
        match r {
            Some(k) => is_entity(s@, i as int, k as int),
            None => forall|k: int| !is_entity(s@, i as int, k),
        },
{
    let n = s.len();
    if i + 1 < n && ascii_letter(s[i + 1]) {
        let mut j: usize = i + 2;
        while j < n && ascii_letter(s[j])
            invariant
                n == s.len(),
                i + 2 <= j <= n,
                forall|m: int| i < m < j ==> is_ascii_letter(#[trigger] s@[m]),
            decreases n - j,
        {
            j = j + 1;
        }
        if j < n && s[j] == ';' {
            return Some(j + 1);
        }
        proof {
            assert forall|k: int| !is_entity(s@, i as int, k) by {
                if is_entity(s@, i as int, k) {
                    assert(s@[i + 1] != '#');
                    if k - 1 < j {
                        assert(is_ascii_letter(s@[k - 1]));
                    } else if k - 1 > j {
                        assert(is_ascii_letter(s@[j as int]));
                    }
                }
            }
        }
        None
    } else if i + 1 < n && s[i + 1] == '#' {
        let mut j: usize = i + 2;
        while j < n && decimal_digit(s[j])
            invariant
                n == s.len(),
                i + 2 <= j <= n,
                forall|m: int| i + 1 < m < j ==> is_decimal_digit(#[trigger] s@[m]),
            decreases n - j,
        {
            j = j + 1;
        }
        if j < n && j >= i + 3 && s[j] == ';' {
            return Some(j + 1);
        }
        proof {
            assert forall|k: int| !is_entity(s@, i as int, k) by {
                if is_entity(s@, i as int, k) {
                    assert(!is_ascii_letter(s@[i + 1]));
                    if k - 1 < j {
                        assert(is_decimal_digit(s@[k - 1]));
                    } else if k - 1 > j {
                        assert(is_decimal_digit(s@[j as int]));
                    }
                }
            }
        }
        None
    } else {
        proof {
            assert forall|k: int| !is_entity(s@, i as int, k) by {
                if is_entity(s@, i as int, k) {
                    assert(is_ascii_letter(s@[i + 1]) || s@[i + 1] == '#');
                }
            }
        }
        None
    }
}

/// Replaces every entity in `s` by a space.
pub fn replace_entities_in(s: &Vec<char>) -> (r: Vec<char>)
    ensures
        r@ == replace_entities(s@),
{
    let n = s.len();
    let mut out: Vec<char> = Vec::new();
    let mut i: usize = 0;
    assert(suffix(s@, 0) == s@);
    while i < n
        invariant
            n == s.len(),
            i <= n,
            replace_entities(s@) == out@ + replace_entities(suffix(s@, i as int)),
        decreases n - i,
    {
        let found = if s[i] == '&' {
            entity_end(s, i)
        } else {
            None
        };
        match found {
            Some(k) => {
                proof {
                    lemma_replace_entities_at_entity(s@, i as int, k as int);
                }
                out.push(' ');
                i = k;
            },
            None => {
                proof {
                    assert forall|k: int| !is_entity(s@, i as int, k) by {}
                    lemma_replace_entities_no_entity(s@, i as int);
                }
                out.push(s[i]);
                i = i + 1;
            },
        }
    }
    assert(replace_entities(suffix(s@, n as int)) =~= Seq::<char>::empty()) by {
        assert(suffix(s@, n as int).len() == 0);
    }
    assert(out@ + Seq::<char>::empty() == out@);
    out
}

/// Removes the leading and trailing whitespace of `s`.
pub fn trim_in(s: &Vec<char>) -> (r: Vec<char>)
    ensures
        r@ == trim_ws(s@),
{
    let n = s.len();
    let mut a: usize = 0;
    assert(suffix(s@, 0) == s@);
    while a < n && is_whitespace(s[a])
        invariant
            n == s.len(),
            a <= n,
            trim_start_ws(s@) == trim_start_ws(suffix(s@, a as int)),
        decreases n - a,
    {
        assert(suffix(suffix(s@, a as int), 1) == suffix(s@, a + 1));
        a = a + 1;
    }
    assert(trim_start_ws(s@) == suffix(s@, a as int));
    let mut b: usize = n;
    while b > a && is_whitespace(s[b - 1])
        invariant
            n == s.len(),
            a <= b <= n,
            trim_ws(s@) == trim_end_ws(s@.subrange(a as int, b as int)),
        decreases b,
    {
        assert(s@.subrange(a as int, b as int).subrange(0, b - a - 1) == s@.subrange(
            a as int,
            b - 1,
        ));
        b = b - 1;
    }
    let mut out: Vec<char> = Vec::new();
    let mut m: usize = a;
    while m < b
        invariant
            n == s.len(),
            a <= m <= b <= n,
            out@ == s@.subrange(a as int, m as int),
        decreases b - m,
    {
        out.push(s[m]);
        assert(s@.subrange(a as int, m + 1) == s@.subrange(a as int, m as int).push(s@[m as int]));
        m = m + 1;
    }
    out
}

/// Replaces every run of whitespace in `s` by one space.
pub fn collapse_in(s: &Vec<char>) -> (r: Vec<char>)
    ensures
        r@ == collapse_ws(s@),
{
    let n = s.len();
    let mut out: Vec<char> = Vec::new();
    let mut i: usize = 0;
    assert(suffix(s@, 0) == s@);
    while i < n
        invariant
            n == s.len(),
            i <= n,
            collapse_ws(s@) == out@ + collapse_ws(suffix(s@, i as int)),
        decreases n - i,
    {
        if is_whitespace(s[i]) {
            let mut j: usize = i + 1;
            assert(trim_start_ws(suffix(s@, i as int)) == trim_start_ws(suffix(s@, i + 1))) by {
                assert(suffix(suffix(s@, i as int), 1) == suffix(s@, i + 1));
            }
            while j < n && is_whitespace(s[j])
                invariant
                    n == s.len(),
                    i < j <= n,
                    trim_start_ws(suffix(s@, i as int)) == trim_start_ws(suffix(s@, j as int)),
                decreases n - j,
            {
                assert(suffix(suffix(s@, j as int), 1) == suffix(s@, j + 1));
                j = j + 1;
            }
            assert(trim_start_ws(suffix(s@, j as int)) == suffix(s@, j as int));
            out.push(' ');
            i = j;
        } else {
            assert(suffix(suffix(s@, i as int), 1) == suffix(s@, i + 1));
            out.push(s[i]);
            i = i + 1;
        }
    }
    assert(collapse_ws(suffix(s@, n as int)) =~= Seq::<char>::empty()) by {
        assert(suffix(s@, n as int).len() == 0);
    }
    assert(out@ + Seq::<char>::empty() == out@);
    out
}

/// The plain text of an HTML fragment: each tag and each entity becomes a
/// space (entities are not decoded), the ends are trimmed, and every run of
/// whitespace becomes one space.
pub fn strip_html(raw: &str) -> (r: String)
    ensures
        r@ == plain_text(raw@),
{
    let chars = chars_of(raw);
    let no_tags = replace_tags_in(&chars);
    let no_entities = replace_entities_in(&no_tags);
    let trimmed = trim_in(&no_entities);
    let collapsed = collapse_in(&trimmed);
    string_of(&collapsed)
}

} // verus!
