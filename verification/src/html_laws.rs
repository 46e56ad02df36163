//! What holds of every plain text that `strip_html` produces: no tag and no
//! entity is left in it, its whitespace is normalised, and cleaning it again
//! changes nothing.

use vstd::prelude::*;

use crate::html::{
    collapse_ws, is_entity, is_tag, plain_text, replace_entities, replace_tags, suffix,
    trim_end_ws, trim_start_ws, trim_ws,
};
use crate::text::{is_ascii_letter, is_decimal_digit, is_white_space};

verus! {

/// No tag occurs anywhere in `s`.
pub open spec fn has_no_tag(s: Seq<char>) -> bool {
    forall|i: int, k: int| !is_tag(s, i, k)
}

/// No entity occurs anywhere in `s`.
pub open spec fn has_no_entity(s: Seq<char>) -> bool {
    forall|i: int, k: int| !is_entity(s, i, k)
}

/// The whitespace of `s` is normalised: none at either end, every
/// whitespace character is a plain space, and no two of them are adjacent.
pub open spec fn is_normalized(s: Seq<char>) -> bool {
    &&& s.len() > 0 ==> !is_white_space(s[0]) && !is_white_space(s[s.len() - 1])
    &&& forall|i: int| 0 <= i < s.len() && is_white_space(#[trigger] s[i]) ==> s[i] == ' '
    &&& forall|i: int|
        0 <= i < s.len() - 1 && is_white_space(#[trigger] s[i]) ==> !is_white_space(s[i + 1])
}

// ---------------------------------------------------------------------------
// Sequences
// ---------------------------------------------------------------------------

proof fn lemma_suffix_suffix(s: Seq<char>, i: int, j: int)
    requires
        0 <= i,
        0 <= j,
        i + j <= s.len(),
    ensures
        suffix(suffix(s, i), j) == suffix(s, i + j),
{
    assert(suffix(suffix(s, i), j) =~= suffix(s, i + j));
}

proof fn lemma_cons_suffix(s: Seq<char>)
    requires
        s.len() > 0,
    ensures
        seq![s[0]] + suffix(s, 1) == s,
{
    assert(seq![s[0]] + suffix(s, 1) =~= s);
}

// ---------------------------------------------------------------------------
// Tags: a scanner state that remembers whether a tag is open
// ---------------------------------------------------------------------------

/// Where a left-to-right scan for tags stands.
pub enum TagScan {
    /// No `<` is pending.
    Outside,
    /// A `<` was just read.
    Opened,
    /// A `<` and at least one character other than `>` were read.
    Inside,
}

pub open spec fn tag_step(st: TagScan, c: char) -> TagScan {
    match st {
        TagScan::Outside => if c == '<' {
            TagScan::Opened
        } else {
            TagScan::Outside
        },
        TagScan::Opened => if c == '>' {
            TagScan::Outside
        } else {
            TagScan::Inside
        },
        TagScan::Inside => TagScan::Inside,
    }
}

/// Scanning `s` from state `st` never closes a tag.
pub open spec fn tag_free_from(s: Seq<char>, st: TagScan) -> bool
    decreases s.len(),
{
    if s.len() == 0 {
        true
    } else if st == TagScan::Inside && s[0] == '>' {
        false
    } else {
        tag_free_from(suffix(s, 1), tag_step(st, s[0]))
    }
}

/// The state after reading a character that is neither `<` nor `>`.
pub open spec fn tag_plain(st: TagScan) -> TagScan {
    match st {
        TagScan::Outside => TagScan::Outside,
        _ => TagScan::Inside,
    }
}

pub open spec fn no_angle(c: char) -> bool {
    c != '<' && c != '>'
}

proof fn lemma_tag_inside_no_gt(s: Seq<char>)
    requires
        tag_free_from(s, TagScan::Inside),
    ensures
        forall|m: int| 0 <= m < s.len() ==> s[m] != '>',
    decreases s.len(),
{
    if s.len() > 0 {
        lemma_tag_inside_no_gt(suffix(s, 1));
        assert forall|m: int| 0 <= m < s.len() implies s[m] != '>' by {
            if m > 0 {
                assert(suffix(s, 1)[m - 1] == s[m]);
            }
        }
    }
}

proof fn lemma_tag_no_gt_free(s: Seq<char>, st: TagScan)
    requires
        forall|m: int| 0 <= m < s.len() ==> s[m] != '>',
        st != TagScan::Outside,
    ensures
        tag_free_from(s, st),
    decreases s.len(),
{
    if s.len() > 0 {
        assert forall|m: int| 0 <= m < suffix(s, 1).len() implies suffix(s, 1)[m] != '>' by {
            assert(suffix(s, 1)[m] == s[m + 1]);
        }
        lemma_tag_no_gt_free(suffix(s, 1), TagScan::Inside);
    }
}

proof fn lemma_tag_shift1(s: Seq<char>, i: int, k: int)
    requires
        s.len() > 0,
        0 <= i,
    ensures
        is_tag(suffix(s, 1), i, k) <==> is_tag(s, i + 1, k + 1),
{
    let t = suffix(s, 1);
    if is_tag(t, i, k) {
        assert forall|m: int| i + 1 < m < k implies s[m] != '>' by {
            assert(t[m - 1] == s[m]);
        }
    }
    if is_tag(s, i + 1, k + 1) {
        assert forall|m: int| i < m < k - 1 implies t[m] != '>' by {
            assert(t[m] == s[m + 1]);
        }
    }
}

/// A scan that never closes a tag means there is no tag.
proof fn lemma_tag_free_sound(s: Seq<char>, st: TagScan, i: int, k: int)
    requires
        tag_free_from(s, st),
    ensures
        !is_tag(s, i, k),
    decreases s.len(),
{
    if is_tag(s, i, k) {
        let t = suffix(s, 1);
        if i == 0 {
            let st1 = tag_step(st, s[0]);
            assert(st1 != TagScan::Outside);
            assert(tag_free_from(t, st1));
            if st1 == TagScan::Inside {
                lemma_tag_inside_no_gt(t);
                assert(t[k - 2] == s[k - 1]);
            } else {
                assert(t[0] == s[1]);
                assert(s[1] != '>');
                assert(st1 == TagScan::Opened);
                assert(t.len() > 0);
                assert(tag_step(st1, t[0]) == TagScan::Inside);
                assert(tag_free_from(suffix(t, 1), TagScan::Inside));
                lemma_tag_inside_no_gt(suffix(t, 1));
                assert(suffix(t, 1)[k - 3] == s[k - 1]);
            }
        } else {
            lemma_tag_shift1(s, i - 1, k - 1);
            lemma_tag_free_sound(t, tag_step(st, s[0]), i - 1, k - 1);
        }
    }
}

/// If some `>` follows position `i`, a first one does.
proof fn lemma_first_gt(s: Seq<char>, i: int, m: int)
    requires
        0 <= i < m < s.len(),
        s[m] == '>',
    ensures
        exists|j: int| i < j <= m && s[j] == '>' && forall|p: int| i < p < j ==> s[p] != '>',
    decreases m - i,
{
    if s[i + 1] == '>' {
        assert(forall|p: int| i < p < i + 1 ==> s[p] != '>');
    } else if i + 1 < m {
        lemma_first_gt(s, i + 1, m);
        let j = choose|j: int| i + 1 < j <= m && s[j] == '>' && forall|p: int| i + 1 < p < j ==> s[p] != '>';
        assert(forall|p: int| i < p < j ==> s[p] != '>');
    }
}

/// After tags are replaced, no tag is left.
proof fn lemma_replace_tags_tag_free(s: Seq<char>)
    ensures
        tag_free_from(replace_tags(s), TagScan::Outside),
    decreases s.len(),
{
    if s.len() > 0 {
        let r = replace_tags(s);
        if exists|k: int| is_tag(s, 0, k) {
            let k = choose|k: int| is_tag(s, 0, k);
            lemma_replace_tags_tag_free(suffix(s, k));
            assert(r == seq![' '] + replace_tags(suffix(s, k)));
            assert(suffix(r, 1) == replace_tags(suffix(s, k)));
            assert(r[0] == ' ');
            assert(tag_free_from(r, TagScan::Outside));
        } else {
            let rest = suffix(s, 1);
            assert(r == seq![s[0]] + replace_tags(rest));
            assert(suffix(r, 1) == replace_tags(rest));
            assert(r[0] == s[0]);
            if s[0] != '<' {
                lemma_replace_tags_tag_free(rest);
                assert(tag_free_from(r, TagScan::Outside));
            } else if rest.len() == 0 {
                assert(replace_tags(rest).len() == 0);
                assert(tag_free_from(suffix(r, 1), TagScan::Opened));
            } else if rest[0] == '>' {
                // `<>`: the `>` stays and closes nothing.
                assert forall|k: int| !is_tag(rest, 0, k) by {}
                lemma_replace_tags_tag_free(suffix(rest, 1));
                let rr = replace_tags(rest);
                assert(rr == seq![rest[0]] + replace_tags(suffix(rest, 1)));
                assert(suffix(rr, 1) == replace_tags(suffix(rest, 1)));
                assert(rr[0] == '>');
                assert(tag_free_from(rr, TagScan::Opened));
                assert(tag_free_from(r, TagScan::Outside));
            } else {
                // No `>` follows the `<`, or the first one would close a tag.
                assert forall|m: int| 0 <= m < rest.len() implies rest[m] != '>' by {
                    if rest[m] == '>' {
                        assert(s[m + 1] == '>');
                        lemma_first_gt(s, 0, m + 1);
                        let j = choose|j: int| 0 < j <= m + 1 && s[j] == '>' && forall|p: int|
                            0 < p < j ==> s[p] != '>';
                        assert(s[1] == rest[0]);
                        assert(is_tag(s, 0, j + 1));
                    }
                }
                crate::html::lemma_replace_tags_no_gt(rest);
                lemma_tag_no_gt_free(rest, TagScan::Opened);
                assert(tag_free_from(replace_tags(rest), TagScan::Opened));
                assert(tag_free_from(r, TagScan::Outside));
            }
        }
    }
}

/// Reading a stretch of characters that are neither `<` nor `>` closes no
/// tag and leaves the scanner as one such character would.
proof fn lemma_tag_plain_run(s: Seq<char>, st: TagScan, l: int)
    requires
        tag_free_from(s, st),
        1 <= l <= s.len(),
        forall|m: int| 0 <= m < l ==> no_angle(#[trigger] s[m]),
    ensures
        tag_free_from(suffix(s, l), tag_plain(st)),
    decreases l,
{
    let t = suffix(s, 1);
    assert(tag_step(st, s[0]) == tag_plain(st));
    if l > 1 {
        assert forall|m: int| 0 <= m < l - 1 implies no_angle(#[trigger] t[m]) by {
            assert(t[m] == s[m + 1]);
        }
        lemma_tag_plain_run(t, tag_plain(st), l - 1);
        lemma_suffix_suffix(s, 1, l - 1);
    }
}


proof fn lemma_entity_no_angle(s: Seq<char>, i: int, k: int)
    requires
        is_entity(s, i, k),
    ensures
        forall|m: int| i <= m < k ==> no_angle(#[trigger] s[m]),
{
    assert forall|m: int| i <= m < k implies no_angle(#[trigger] s[m]) by {
        if i < m < k - 1 {
            if !is_ascii_letter(s[m]) {
                assert(is_decimal_digit(s[m]) || m == i + 1);
            }
        }
    }
}

/// Replacing entities by spaces closes no new tag.
proof fn lemma_entities_keep_tag_free(x: Seq<char>, st: TagScan)
    requires
        tag_free_from(x, st),
    ensures
        tag_free_from(replace_entities(x), st),
    decreases x.len(),
{
    if x.len() > 0 {
        let r = replace_entities(x);
        if exists|k: int| is_entity(x, 0, k) {
            let k = choose|k: int| is_entity(x, 0, k);
            lemma_entity_no_angle(x, 0, k);
            lemma_tag_plain_run(x, st, k);
            lemma_entities_keep_tag_free(suffix(x, k), tag_plain(st));
            assert(r == seq![' '] + replace_entities(suffix(x, k)));
            assert(r[0] == ' ');
            assert(suffix(r, 1) == replace_entities(suffix(x, k)));
        } else {
            lemma_entities_keep_tag_free(suffix(x, 1), tag_step(st, x[0]));
            assert(r == seq![x[0]] + replace_entities(suffix(x, 1)));
            assert(r[0] == x[0]);
            assert(suffix(r, 1) == replace_entities(suffix(x, 1)));
        }
    }
}

// ---------------------------------------------------------------------------
// Leading and trailing whitespace
// ---------------------------------------------------------------------------

/// How many whitespace characters `s` starts with.
pub open spec fn leading_ws(s: Seq<char>) -> nat
    decreases s.len(),
{
    if s.len() > 0 && is_white_space(s[0]) {
        1 + leading_ws(suffix(s, 1))
    } else {
        0
    }
}

/// How many whitespace characters `s` ends with.
pub open spec fn trailing_ws(s: Seq<char>) -> nat
    decreases s.len(),
{
    if s.len() > 0 && is_white_space(s[s.len() - 1]) {
        1 + trailing_ws(s.subrange(0, s.len() - 1))
    } else {
        0
    }
}

proof fn lemma_leading_ws(s: Seq<char>)
    ensures
        leading_ws(s) <= s.len(),
        trim_start_ws(s) == suffix(s, leading_ws(s) as int),
        forall|m: int| 0 <= m < leading_ws(s) ==> is_white_space(#[trigger] s[m]),
        leading_ws(s) < s.len() ==> !is_white_space(s[leading_ws(s) as int]),
    decreases s.len(),
{
    if s.len() > 0 && is_white_space(s[0]) {
        let t = suffix(s, 1);
        lemma_leading_ws(t);
        lemma_suffix_suffix(s, 1, leading_ws(t) as int);
        assert forall|m: int| 0 <= m < leading_ws(s) implies is_white_space(#[trigger] s[m]) by {
            if m > 0 {
                assert(t[m - 1] == s[m]);
            }
        }
        if leading_ws(s) < s.len() {
            assert(t[leading_ws(t) as int] == s[leading_ws(s) as int]);
        }
    } else {
        assert(suffix(s, 0) =~= s);
    }
}

proof fn lemma_trailing_ws(s: Seq<char>)
    ensures
        trailing_ws(s) <= s.len(),
        trim_end_ws(s) == s.subrange(0, s.len() - trailing_ws(s)),
        forall|m: int| s.len() - trailing_ws(s) <= m < s.len() ==> is_white_space(#[trigger] s[m]),
        trailing_ws(s) < s.len() ==> !is_white_space(s[s.len() - trailing_ws(s) - 1]),
    decreases s.len(),
{
    if s.len() > 0 && is_white_space(s[s.len() - 1]) {
        let t = s.subrange(0, s.len() - 1);
        lemma_trailing_ws(t);
        assert(t.subrange(0, t.len() - trailing_ws(t)) =~= s.subrange(
            0,
            s.len() - trailing_ws(s),
        ));
        assert forall|m: int| s.len() - trailing_ws(s) <= m < s.len() implies is_white_space(
            #[trigger] s[m],
        ) by {
            if m < s.len() - 1 {
                assert(t[m] == s[m]);
            }
        }
        if trailing_ws(s) < s.len() {
            assert(t[t.len() - trailing_ws(t) - 1] == s[s.len() - trailing_ws(s) - 1]);
        }
    } else {
        assert(s.subrange(0, s.len() as int) =~= s);
    }
}

proof fn lemma_ws_no_angle(c: char)
    requires
        is_white_space(c),
    ensures
        no_angle(c),
        c != '&' && c != ';' && c != '#' && !is_ascii_letter(c),
{
}

proof fn lemma_tag_free_prefix(s: Seq<char>, st: TagScan, j: int)
    requires
        tag_free_from(s, st),
        0 <= j <= s.len(),
    ensures
        tag_free_from(s.subrange(0, j), st),
    decreases s.len(),
{
    if j > 0 {
        let p = s.subrange(0, j);
        lemma_tag_free_prefix(suffix(s, 1), tag_step(st, s[0]), j - 1);
        assert(suffix(p, 1) =~= suffix(s, 1).subrange(0, j - 1));
    }
}

proof fn lemma_ws_run_no_angle(s: Seq<char>, l: int)
    requires
        0 <= l <= s.len(),
        forall|m: int| 0 <= m < l ==> is_white_space(#[trigger] s[m]),
    ensures
        forall|m: int| 0 <= m < l ==> no_angle(#[trigger] s[m]),
{
    assert forall|m: int| 0 <= m < l implies no_angle(#[trigger] s[m]) by {
        lemma_ws_no_angle(s[m]);
    }
}

proof fn lemma_trim_keeps_tag_free(s: Seq<char>)
    requires
        tag_free_from(s, TagScan::Outside),
    ensures
        tag_free_from(trim_ws(s), TagScan::Outside),
{
    lemma_leading_ws(s);
    let l = leading_ws(s) as int;
    let t = trim_start_ws(s);
    if l > 0 {
        lemma_ws_run_no_angle(s, l);
        lemma_tag_plain_run(s, TagScan::Outside, l);
    } else {
        assert(t =~= s);
    }
    lemma_trailing_ws(t);
    lemma_tag_free_prefix(t, TagScan::Outside, t.len() - trailing_ws(t));
}

/// Collapsing whitespace closes no new tag.
proof fn lemma_collapse_keeps_tag_free(s: Seq<char>, st: TagScan)
    requires
        tag_free_from(s, st),
    ensures
        tag_free_from(collapse_ws(s), st),
    decreases s.len(),
{
    if s.len() > 0 {
        let r = collapse_ws(s);
        if is_white_space(s[0]) {
            lemma_leading_ws(s);
            let l = leading_ws(s) as int;
            lemma_ws_run_no_angle(s, l);
            lemma_tag_plain_run(s, st, l);
            lemma_collapse_keeps_tag_free(suffix(s, l), tag_plain(st));
            assert(r == seq![' '] + collapse_ws(suffix(s, l)));
            assert(r[0] == ' ');
            assert(suffix(r, 1) == collapse_ws(suffix(s, l)));
        } else {
            lemma_collapse_keeps_tag_free(suffix(s, 1), tag_step(st, s[0]));
            assert(r == seq![s[0]] + collapse_ws(suffix(s, 1)));
            assert(r[0] == s[0]);
            assert(suffix(r, 1) == collapse_ws(suffix(s, 1)));
        }
    }
}

// ---------------------------------------------------------------------------
// Entities: a scanner state that remembers a pending `&`
// ---------------------------------------------------------------------------

/// Where a left-to-right scan for entities stands.
pub enum EntityScan {
    /// No `&` is pending.
    Out,
    /// A `&` was just read.
    Amp,
    /// `&` and one or more ASCII letters were read.
    Letters,
    /// `&#` was read.
    Hash,
    /// `&#` and one or more decimal digits were read.
    Digits,
}

pub open spec fn entity_step(st: EntityScan, c: char) -> EntityScan {
    if c == '&' {
        EntityScan::Amp
    } else {
        match st {
            EntityScan::Amp => if is_ascii_letter(c) {
                EntityScan::Letters
            } else if c == '#' {
                EntityScan::Hash
            } else {
                EntityScan::Out
            },
            EntityScan::Letters => if is_ascii_letter(c) {
                EntityScan::Letters
            } else {
                EntityScan::Out
            },
            EntityScan::Hash => if is_decimal_digit(c) {
                EntityScan::Digits
            } else {
                EntityScan::Out
            },
            EntityScan::Digits => if is_decimal_digit(c) {
                EntityScan::Digits
            } else {
                EntityScan::Out
            },
            EntityScan::Out => EntityScan::Out,
        }
    }
}

/// Reading `c` in state `st` completes an entity.
pub open spec fn entity_closes(st: EntityScan, c: char) -> bool {
    c == ';' && (st == EntityScan::Letters || st == EntityScan::Digits)
}

/// Scanning `s` from state `st` never completes an entity.
pub open spec fn entity_free_from(s: Seq<char>, st: EntityScan) -> bool
    decreases s.len(),
{
    if s.len() == 0 {
        true
    } else if entity_closes(st, s[0]) {
        false
    } else {
        entity_free_from(suffix(s, 1), entity_step(st, s[0]))
    }
}

proof fn lemma_entity_free_out(s: Seq<char>, st: EntityScan)
    requires
        entity_free_from(s, st),
    ensures
        entity_free_from(s, EntityScan::Out),
    decreases s.len(),
{
    if s.len() > 0 && s[0] != '&' {
        lemma_entity_free_out(suffix(s, 1), entity_step(st, s[0]));
    }
}

proof fn lemma_entity_free_suffix(s: Seq<char>, st: EntityScan, l: int)
    requires
        entity_free_from(s, st),
        0 <= l <= s.len(),
    ensures
        entity_free_from(suffix(s, l), EntityScan::Out),
    decreases l,
{
    if l == 0 {
        assert(suffix(s, 0) =~= s);
        lemma_entity_free_out(s, st);
    } else {
        lemma_entity_free_suffix(suffix(s, 1), entity_step(st, s[0]), l - 1);
        lemma_suffix_suffix(s, 1, l - 1);
    }
}

proof fn lemma_entity_free_prefix(s: Seq<char>, st: EntityScan, j: int)
    requires
        entity_free_from(s, st),
        0 <= j <= s.len(),
    ensures
        entity_free_from(s.subrange(0, j), st),
    decreases s.len(),
{
    if j > 0 {
        let p = s.subrange(0, j);
        lemma_entity_free_prefix(suffix(s, 1), entity_step(st, s[0]), j - 1);
        assert(suffix(p, 1) =~= suffix(s, 1).subrange(0, j - 1));
    }
}

/// From `Letters`, letters and then `;` complete an entity; likewise digits
/// from `Digits`.
proof fn lemma_entity_run_closes(s: Seq<char>, st: EntityScan, j: int)
    requires
        st == EntityScan::Letters || st == EntityScan::Digits,
        0 <= j < s.len(),
        s[j] == ';',
        st == EntityScan::Letters ==> forall|m: int| 0 <= m < j ==> is_ascii_letter(#[trigger] s[m]),
        st == EntityScan::Digits ==> forall|m: int| 0 <= m < j ==> is_decimal_digit(#[trigger] s[m]),
    ensures
        !entity_free_from(s, st),
    decreases j,
{
    if j > 0 {
        let t = suffix(s, 1);
        assert(entity_step(st, s[0]) == st);
        assert forall|m: int| 0 <= m < j - 1 implies t[m] == s[m + 1] by {}
        lemma_entity_run_closes(t, st, j - 1);
    }
}

proof fn lemma_entity_shift1(s: Seq<char>, i: int, k: int)
    requires
        s.len() > 0,
        0 <= i,
    ensures
        is_entity(suffix(s, 1), i, k) <==> is_entity(s, i + 1, k + 1),
{
    let t = suffix(s, 1);
    assert forall|m: int| 0 <= m < t.len() implies t[m] == s[m + 1] by {}
    if is_entity(t, i, k) {
        if forall|m: int| i < m < k - 1 ==> is_ascii_letter(#[trigger] t[m]) {
            assert forall|m: int| i + 1 < m < k implies is_ascii_letter(#[trigger] s[m]) by {
                assert(t[m - 1] == s[m]);
            }
        } else {
            assert forall|m: int| i + 2 < m < k implies is_decimal_digit(#[trigger] s[m]) by {
                assert(t[m - 1] == s[m]);
            }
        }
    }
    if is_entity(s, i + 1, k + 1) {
        if forall|m: int| i + 1 < m < k ==> is_ascii_letter(#[trigger] s[m]) {
            assert forall|m: int| i < m < k - 1 implies is_ascii_letter(#[trigger] t[m]) by {
                assert(t[m] == s[m + 1]);
            }
        } else {
            assert forall|m: int| i + 1 < m < k - 1 implies is_decimal_digit(#[trigger] t[m]) by {
                assert(t[m] == s[m + 1]);
            }
        }
    }
}

/// A scan that never completes an entity means there is no entity.
proof fn lemma_entity_free_sound(s: Seq<char>, st: EntityScan, i: int, k: int)
    requires
        entity_free_from(s, st),
    ensures
        !is_entity(s, i, k),
    decreases s.len(),
{
    if is_entity(s, i, k) {
        let t = suffix(s, 1);
        if i == 0 {
            assert(entity_step(st, s[0]) == EntityScan::Amp);
            assert(entity_free_from(t, EntityScan::Amp));
            assert forall|m: int| 0 <= m < t.len() implies t[m] == s[m + 1] by {}
            if forall|m: int| 0 < m < k - 1 ==> is_ascii_letter(#[trigger] s[m]) {
                assert(is_ascii_letter(s[1]));
                let u = suffix(t, 1);
                assert(entity_free_from(u, EntityScan::Letters));
                assert forall|m: int| 0 <= m < k - 3 implies is_ascii_letter(#[trigger] u[m]) by {
                    assert(u[m] == s[m + 2]);
                }
                assert(u[k - 3] == s[k - 1]);
                lemma_entity_run_closes(u, EntityScan::Letters, k - 3);
            } else {
                assert(s[1] == '#');
                let u = suffix(t, 1);
                assert(entity_free_from(u, EntityScan::Hash));
                assert(u[0] == s[2]);
                assert(is_decimal_digit(s[2]));
                let w = suffix(u, 1);
                assert(entity_free_from(w, EntityScan::Digits));
                assert forall|m: int| 0 <= m < k - 4 implies is_decimal_digit(#[trigger] w[m]) by {
                    assert(w[m] == s[m + 3]);
                }
                assert(w[k - 4] == s[k - 1]);
                lemma_entity_run_closes(w, EntityScan::Digits, k - 4);
            }
        } else {
            lemma_entity_shift1(s, i - 1, k - 1);
            lemma_entity_free_sound(t, entity_step(st, s[0]), i - 1, k - 1);
        }
    }
}

/// `s` is some ASCII letters followed by `;`.
pub open spec fn letters_then_semi(s: Seq<char>) -> bool {
    exists|j: int|
        0 <= j < s.len() && s[j] == ';' && forall|m: int|
            0 <= m < j ==> is_ascii_letter(#[trigger] s[m])
}

/// `s` is some decimal digits followed by `;`.
pub open spec fn digits_then_semi(s: Seq<char>) -> bool {
    exists|j: int|
        0 <= j < s.len() && s[j] == ';' && forall|m: int|
            0 <= m < j ==> is_decimal_digit(#[trigger] s[m])
}

/// Scanning `s` from `st` would complete the entity that `st` has begun.
pub open spec fn completes_pending(st: EntityScan, s: Seq<char>) -> bool {
    match st {
        EntityScan::Out => false,
        EntityScan::Letters => letters_then_semi(s),
        EntityScan::Digits => digits_then_semi(s),
        EntityScan::Hash => s.len() > 0 && is_decimal_digit(s[0]) && digits_then_semi(suffix(s, 1)),
        EntityScan::Amp => s.len() > 0 && ((is_ascii_letter(s[0]) && letters_then_semi(
            suffix(s, 1),
        )) || (s[0] == '#' && s.len() > 1 && is_decimal_digit(s[1]) && digits_then_semi(
            suffix(s, 2),
        ))),
    }
}

/// After entities are replaced, no entity is left, even after a pending
/// beginning that the rest does not complete.
proof fn lemma_replace_entities_free(y: Seq<char>, st: EntityScan)
    requires
        !completes_pending(st, y),
    ensures
        entity_free_from(replace_entities(y), st),
    decreases y.len(),
{
    if y.len() > 0 {
        let r = replace_entities(y);
        let t = suffix(y, 1);
        assert forall|m: int| 0 <= m < t.len() implies t[m] == y[m + 1] by {}
        if exists|k: int| is_entity(y, 0, k) {
            let k = choose|k: int| is_entity(y, 0, k);
            lemma_replace_entities_free(suffix(y, k), EntityScan::Out);
            assert(r == seq![' '] + replace_entities(suffix(y, k)));
            assert(r[0] == ' ');
            assert(suffix(r, 1) == replace_entities(suffix(y, k)));
            assert(entity_step(st, ' ') == EntityScan::Out);
        } else {
            assert(r == seq![y[0]] + replace_entities(t));
            assert(r[0] == y[0]);
            assert(suffix(r, 1) == replace_entities(t));
            if entity_closes(st, y[0]) {
                assert(forall|m: int| 0 <= m < 0 ==> is_ascii_letter(#[trigger] y[m]));
                assert(forall|m: int| 0 <= m < 0 ==> is_decimal_digit(#[trigger] y[m]));
                assert(false);
            }
            let st1 = entity_step(st, y[0]);
            if completes_pending(st1, t) {
                if y[0] == '&' {
                    if is_ascii_letter(t[0]) {
                        let u = suffix(t, 1);
                        let j = choose|j: int|
                            0 <= j < u.len() && u[j] == ';' && forall|m: int|
                                0 <= m < j ==> is_ascii_letter(#[trigger] u[m]);
                        assert forall|m: int| 0 < m < j + 2 implies is_ascii_letter(
                            #[trigger] y[m],
                        ) by {
                            if m > 1 {
                                assert(u[m - 2] == y[m]);
                            }
                        }
                        assert(u[j] == y[j + 2]);
                        assert(is_entity(y, 0, j + 3));
                    } else {
                        let u = suffix(t, 2);
                        let j = choose|j: int|
                            0 <= j < u.len() && u[j] == ';' && forall|m: int|
                                0 <= m < j ==> is_decimal_digit(#[trigger] u[m]);
                        assert forall|m: int| 1 < m < j + 3 implies is_decimal_digit(
                            #[trigger] y[m],
                        ) by {
                            if m > 2 {
                                assert(u[m - 3] == y[m]);
                            }
                        }
                        assert(u[j] == y[j + 3]);
                        assert(is_entity(y, 0, j + 4));
                    }
                } else if st == EntityScan::Letters || (st == EntityScan::Amp && st1
                    == EntityScan::Letters) {
                    let j = choose|j: int|
                        0 <= j < t.len() && t[j] == ';' && forall|m: int|
                            0 <= m < j ==> is_ascii_letter(#[trigger] t[m]);
                    if st == EntityScan::Letters {
                        assert forall|m: int| 0 <= m < j + 1 implies is_ascii_letter(
                            #[trigger] y[m],
                        ) by {
                            if m > 0 {
                                assert(t[m - 1] == y[m]);
                            }
                        }
                        assert(y[j + 1] == t[j]);
                    }
                } else if st == EntityScan::Digits || (st == EntityScan::Hash && st1
                    == EntityScan::Digits) {
                    let j = choose|j: int|
                        0 <= j < t.len() && t[j] == ';' && forall|m: int|
                            0 <= m < j ==> is_decimal_digit(#[trigger] t[m]);
                    if st == EntityScan::Digits {
                        assert forall|m: int| 0 <= m < j + 1 implies is_decimal_digit(
                            #[trigger] y[m],
                        ) by {
                            if m > 0 {
                                assert(t[m - 1] == y[m]);
                            }
                        }
                        assert(y[j + 1] == t[j]);
                    }
                } else {
                    assert(st == EntityScan::Amp && st1 == EntityScan::Hash);
                    assert(suffix(t, 1) == suffix(y, 2));
                }
            }
            lemma_replace_entities_free(t, st1);
        }
    }
}

/// Collapsing whitespace completes no new entity.
proof fn lemma_collapse_keeps_entity_free(s: Seq<char>, st: EntityScan)
    requires
        entity_free_from(s, st),
    ensures
        entity_free_from(collapse_ws(s), st),
    decreases s.len(),
{
    if s.len() > 0 {
        let r = collapse_ws(s);
        if is_white_space(s[0]) {
            lemma_leading_ws(s);
            let l = leading_ws(s) as int;
            lemma_entity_free_suffix(s, st, l);
            lemma_collapse_keeps_entity_free(suffix(s, l), EntityScan::Out);
            assert(r == seq![' '] + collapse_ws(suffix(s, l)));
            assert(r[0] == ' ');
            assert(suffix(r, 1) == collapse_ws(suffix(s, l)));
            assert(entity_step(st, ' ') == EntityScan::Out);
        } else {
            lemma_collapse_keeps_entity_free(suffix(s, 1), entity_step(st, s[0]));
            assert(r == seq![s[0]] + collapse_ws(suffix(s, 1)));
            assert(r[0] == s[0]);
            assert(suffix(r, 1) == collapse_ws(suffix(s, 1)));
        }
    }
}

proof fn lemma_trim_keeps_entity_free(s: Seq<char>)
    requires
        entity_free_from(s, EntityScan::Out),
    ensures
        entity_free_from(trim_ws(s), EntityScan::Out),
{
    lemma_leading_ws(s);
    let t = trim_start_ws(s);
    lemma_entity_free_suffix(s, EntityScan::Out, leading_ws(s) as int);
    lemma_trailing_ws(t);
    lemma_entity_free_prefix(t, EntityScan::Out, t.len() - trailing_ws(t));
}

// ---------------------------------------------------------------------------
// The laws
// ---------------------------------------------------------------------------

/// No tag is left in the plain text of any fragment.
pub proof fn plain_text_has_no_tag(raw: Seq<char>)
    ensures
        has_no_tag(plain_text(raw)),
{
    let t = replace_tags(raw);
    lemma_replace_tags_tag_free(raw);
    lemma_entities_keep_tag_free(t, TagScan::Outside);
    let e = replace_entities(t);
    lemma_trim_keeps_tag_free(e);
    lemma_collapse_keeps_tag_free(trim_ws(e), TagScan::Outside);
    assert forall|i: int, k: int| !is_tag(plain_text(raw), i, k) by {
        lemma_tag_free_sound(plain_text(raw), TagScan::Outside, i, k);
    }
}

/// No entity is left in the plain text of any fragment.
pub proof fn plain_text_has_no_entity(raw: Seq<char>)
    ensures
        has_no_entity(plain_text(raw)),
{
    let e = replace_entities(replace_tags(raw));
    lemma_replace_entities_free(replace_tags(raw), EntityScan::Out);
    lemma_trim_keeps_entity_free(e);
    lemma_collapse_keeps_entity_free(trim_ws(e), EntityScan::Out);
    assert forall|i: int, k: int| !is_entity(plain_text(raw), i, k) by {
        lemma_entity_free_sound(plain_text(raw), EntityScan::Out, i, k);
    }
}

/// Facts about the runs of whitespace that collapsing leaves.
proof fn lemma_collapse_shape(y: Seq<char>)
    ensures
        ({
            let c = collapse_ws(y);
            &&& c.len() == 0 <==> y.len() == 0
            &&& forall|i: int| 0 <= i < c.len() && is_white_space(#[trigger] c[i]) ==> c[i] == ' '
            &&& forall|i: int|
                0 <= i < c.len() - 1 && is_white_space(#[trigger] c[i]) ==> !is_white_space(
                    c[i + 1],
                )
            &&& y.len() > 0 && !is_white_space(y[0]) ==> c[0] == y[0]
            &&& y.len() > 0 && !is_white_space(y[y.len() - 1]) ==> c[c.len() - 1] == y[y.len()
                - 1]
        }),
    decreases y.len(),
{
    if y.len() > 0 {
        let c = collapse_ws(y);
        if is_white_space(y[0]) {
            lemma_leading_ws(y);
            let l = leading_ws(y) as int;
            let z = suffix(y, l);
            lemma_collapse_shape(z);
            let cz = collapse_ws(z);
            assert(c == seq![' '] + cz);
            assert forall|i: int| 0 < i < c.len() implies c[i] == cz[i - 1] by {}
            if z.len() > 0 {
                assert(z[0] == y[l]);
                assert(z[z.len() - 1] == y[y.len() - 1]);
            } else {
                assert(is_white_space(y[y.len() - 1]));
            }
        } else {
            let z = suffix(y, 1);
            lemma_collapse_shape(z);
            let cz = collapse_ws(z);
            assert(c == seq![y[0]] + cz);
            assert forall|i: int| 0 < i < c.len() implies c[i] == cz[i - 1] by {}
            if z.len() > 0 {
                assert(z[z.len() - 1] == y[y.len() - 1]);
            }
        }
    } else {
        assert(collapse_ws(y).len() == 0);
    }
}

/// The plain text of any fragment has normalised whitespace: nothing at
/// either end, only plain spaces, never two in a row.
pub proof fn plain_text_is_normalized(raw: Seq<char>)
    ensures
        is_normalized(plain_text(raw)),
{
    let e = replace_entities(replace_tags(raw));
    lemma_leading_ws(e);
    let t = trim_start_ws(e);
    lemma_trailing_ws(t);
    let x = trim_ws(e);
    if x.len() > 0 {
        assert(x[0] == t[0]);
        assert(t[0] == e[leading_ws(e) as int]);
        assert(x[x.len() - 1] == t[t.len() - trailing_ws(t) - 1]);
    }
    lemma_collapse_shape(x);
}

/// Replacing tags changes nothing in a text without tags.
proof fn lemma_replace_tags_fixed(s: Seq<char>)
    requires
        has_no_tag(s),
    ensures
        replace_tags(s) == s,
    decreases s.len(),
{
    if s.len() > 0 {
        let t = suffix(s, 1);
        assert forall|i: int, k: int| !is_tag(t, i, k) by {
            if i >= 0 {
                lemma_tag_shift1(s, i, k);
            }
        }
        assert(forall|k: int| !is_tag(s, 0, k));
        lemma_replace_tags_fixed(t);
        lemma_cons_suffix(s);
    }
}

/// Replacing entities changes nothing in a text without entities.
proof fn lemma_replace_entities_fixed(s: Seq<char>)
    requires
        has_no_entity(s),
    ensures
        replace_entities(s) == s,
    decreases s.len(),
{
    if s.len() > 0 {
        let t = suffix(s, 1);
        assert forall|i: int, k: int| !is_entity(t, i, k) by {
            if i >= 0 {
                lemma_entity_shift1(s, i, k);
            }
        }
        assert(forall|k: int| !is_entity(s, 0, k));
        lemma_replace_entities_fixed(t);
        lemma_cons_suffix(s);
    }
}

/// Collapsing changes nothing where every whitespace character is a lone
/// plain space that is not last.
proof fn lemma_collapse_fixed(s: Seq<char>)
    requires
        forall|i: int| 0 <= i < s.len() && is_white_space(#[trigger] s[i]) ==> s[i] == ' ',
        forall|i: int|
            0 <= i < s.len() - 1 && is_white_space(#[trigger] s[i]) ==> !is_white_space(s[i + 1]),
        s.len() > 0 ==> !is_white_space(s[s.len() - 1]),
    ensures
        collapse_ws(s) == s,
    decreases s.len(),
{
    if s.len() > 0 {
        let t = suffix(s, 1);
        assert forall|i: int| 0 <= i < t.len() implies t[i] == s[i + 1] by {}
        lemma_collapse_fixed(t);
        if is_white_space(s[0]) {
            assert(!is_white_space(s[1]));
            lemma_leading_ws(s);
            assert(leading_ws(t) == 0);
            assert(leading_ws(s) == 1);
        }
        lemma_cons_suffix(s);
    }
}

/// Text that already has no tag, no entity and normalised whitespace comes
/// back unchanged.
pub proof fn plain_text_keeps_clean_text(s: Seq<char>)
    requires
        has_no_tag(s),
        has_no_entity(s),
        is_normalized(s),
    ensures
        plain_text(s) == s,
{
    lemma_replace_tags_fixed(s);
    lemma_replace_entities_fixed(s);
    lemma_leading_ws(s);
    lemma_trailing_ws(s);
    assert(trim_start_ws(s) =~= s);
    assert(trim_end_ws(s) =~= s);
    lemma_collapse_fixed(s);
}

/// Cleaning a text twice gives what cleaning it once gives.
pub proof fn plain_text_idempotent(raw: Seq<char>)
    ensures
        plain_text(plain_text(raw)) == plain_text(raw),
{
    plain_text_has_no_tag(raw);
    plain_text_has_no_entity(raw);
    plain_text_is_normalized(raw);
    plain_text_keeps_clean_text(plain_text(raw));
}

// ---------------------------------------------------------------------------
// What counts as a tag and as an entity
// ---------------------------------------------------------------------------

/// `<`, then any one or more characters other than `>`, then `>`, is a tag:
/// it becomes one space, and what follows is cleaned on its own.
pub proof fn any_bracketed_text_is_a_tag(w: Seq<char>, rest: Seq<char>)
    requires
        w.len() > 0,
        forall|m: int| 0 <= m < w.len() ==> w[m] != '>',
    ensures
        replace_tags(seq!['<'] + w + seq!['>'] + rest) == seq![' '] + replace_tags(rest),
{
    let s = seq!['<'] + w + seq!['>'] + rest;
    let k: int = w.len() as int + 2;
    assert forall|m: int| 0 < m < k - 1 implies #[trigger] s[m] != '>' by {
        assert(s[m] == w[m - 1]);
    }
    assert(is_tag(s, 0, k));
    let k2 = choose|k2: int| is_tag(s, 0, k2);
    crate::html::lemma_tag_unique(s, 0, k, k2);
    assert(suffix(s, k) =~= rest);
}

/// `&`, then one or more ASCII letters, then `;`, is an entity: it becomes
/// one space, and what follows is cleaned on its own.
pub proof fn any_named_reference_is_an_entity(w: Seq<char>, rest: Seq<char>)
    requires
        w.len() > 0,
        forall|m: int| 0 <= m < w.len() ==> ('a' <= w[m] && w[m] <= 'z') || ('A' <= w[m] && w[m] <= 'Z'),
    ensures
        replace_entities(seq!['&'] + w + seq![';'] + rest) == seq![' '] + replace_entities(rest),
{
    let s = seq!['&'] + w + seq![';'] + rest;
    let k: int = w.len() as int + 2;
    assert forall|m: int| 0 < m < k - 1 implies is_ascii_letter(#[trigger] s[m]) by {
        assert(s[m] == w[m - 1]);
    }
    assert(is_entity(s, 0, k));
    let k2 = choose|k2: int| is_entity(s, 0, k2);
    crate::html::lemma_entity_unique(s, 0, k, k2);
    assert(suffix(s, k) =~= rest);
}

/// `&#`, then one or more digits `0`..`9`, then `;`, is an entity: it
/// becomes one space, and what follows is cleaned on its own.
pub proof fn any_numeric_reference_is_an_entity(w: Seq<char>, rest: Seq<char>)
    requires
        w.len() > 0,
        forall|m: int| 0 <= m < w.len() ==> '0' <= w[m] && w[m] <= '9',
    ensures
        replace_entities(seq!['&', '#'] + w + seq![';'] + rest) == seq![' '] + replace_entities(
            rest,
        ),
{
    let s = seq!['&', '#'] + w + seq![';'] + rest;
    let k: int = w.len() as int + 3;
    assert forall|m: int| 1 < m < k - 1 implies is_decimal_digit(#[trigger] s[m]) by {
        assert(s[m] == w[m - 2]);
    }
    assert(is_entity(s, 0, k));
    let k2 = choose|k2: int| is_entity(s, 0, k2);
    crate::html::lemma_entity_unique(s, 0, k, k2);
    assert(suffix(s, k) =~= rest);
}

/// A text without `<` holds no tag and is kept as it is.
pub proof fn tags_step_keeps_text_without_lt(s: Seq<char>)
    requires
        forall|m: int| 0 <= m < s.len() ==> s[m] != '<',
    ensures
        replace_tags(s) == s,
{
    assert forall|i: int, k: int| !is_tag(s, i, k) by {}
    lemma_replace_tags_fixed(s);
}

/// A text without `&` holds no entity and is kept as it is.
pub proof fn entities_step_keeps_text_without_amp(s: Seq<char>)
    requires
        forall|m: int| 0 <= m < s.len() ==> s[m] != '&',
    ensures
        replace_entities(s) == s,
{
    assert forall|i: int, k: int| !is_entity(s, i, k) by {}
    lemma_replace_entities_fixed(s);
}

/// A text without `>` holds no tag and is kept as it is.
pub proof fn tags_step_keeps_text_without_gt(s: Seq<char>)
    requires
        forall|m: int| 0 <= m < s.len() ==> s[m] != '>',
    ensures
        replace_tags(s) == s,
{
    crate::html::lemma_replace_tags_no_gt(s);
}

/// `<>` is no tag: the `<` is kept and cleaning goes on from the `>`.
pub proof fn empty_brackets_are_no_tag(rest: Seq<char>)
    ensures
        replace_tags(seq!['<', '>'] + rest) == seq!['<'] + replace_tags(seq!['>'] + rest),
{
    let s = seq!['<', '>'] + rest;
    assert forall|k: int| !is_tag(s, 0, k) by {
        if is_tag(s, 0, k) {
            assert(s[1] != '>');
        }
    }
    assert(suffix(s, 1) =~= seq!['>'] + rest);
}

/// An `&` that is followed by neither an ASCII letter nor `#` starts no
/// entity: it is kept and cleaning goes on from the next character.
pub proof fn bare_ampersand_is_kept(c: char, rest: Seq<char>)
    requires
        !(('a' <= c && c <= 'z') || ('A' <= c && c <= 'Z')),
        c != '#',
    ensures
        replace_entities(seq!['&', c] + rest) == seq!['&'] + replace_entities(seq![c] + rest),
{
    let s = seq!['&', c] + rest;
    assert forall|k: int| !is_entity(s, 0, k) by {
        if is_entity(s, 0, k) {
            assert(s[1] == c);
            assert(is_ascii_letter(s[1]) || s[1] == '#');
        }
    }
    assert(suffix(s, 1) =~= seq![c] + rest);
}

} // verus!
