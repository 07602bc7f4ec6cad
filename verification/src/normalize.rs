//! The name normalizer: the single place where user-supplied container and
//! item names are turned into backend-safe identifiers.
//!
//! Container names are lower-cased (ASCII), every character outside
//! `a..z`, `0..9` and the backend's separator is deleted, and one leading
//! separator is stripped. Item names must carry a type suffix: the text from
//! the first `'.'` on is lower-cased but not filtered, and only the base
//! before it goes through the container rule.
//!
//! Different backends may accept a different separator character, so every
//! function takes it as a parameter; `streamline` and `streamline_item` fix
//! it to the hyphen that all current backends share.

use vstd::prelude::*;
use vstd::string::StrSliceExecFns;

use crate::error::StowError;

verus! {

/// Whether `c` is an ASCII upper-case letter.
pub open spec fn is_ascii_upper(c: char) -> bool {
    65 <= c as u32 && c as u32 <= 90
}

/// ASCII lower-casing of a single character; everything but `A..Z` is kept.
pub open spec fn lower_char(c: char) -> char {
    if is_ascii_upper(c) {
        (((c as u32) + 32) as u32) as char
    } else {
        c
    }
}

/// Whether `c` survives the container-name filter: an ASCII lower-case
/// letter, an ASCII digit, or the backend's separator.
pub open spec fn is_keep(c: char, sep: char) -> bool {
    (97 <= c as u32 && c as u32 <= 122) || (48 <= c as u32 && c as u32 <= 57) || c == sep
}

/// Character-wise ASCII lower-casing of a sequence.
pub open spec fn lower_seq(s: Seq<char>) -> Seq<char>
    decreases s.len(),
{
    if s.len() == 0 {
        Seq::empty()
    } else {
        lower_seq(s.drop_last()).push(lower_char(s.last()))
    }
}

/// Lower-case the sequence and delete every character the filter refuses.
pub open spec fn filter_name(s: Seq<char>, sep: char) -> Seq<char>
    decreases s.len(),
{
    if s.len() == 0 {
        Seq::empty()
    } else {
        let rest = filter_name(s.drop_last(), sep);
        let c = lower_char(s.last());
        if is_keep(c, sep) {
            rest.push(c)
        } else {
            rest
        }
    }
}

/// Remove a single leading separator, if present.
pub open spec fn strip_leading_sep(s: Seq<char>, sep: char) -> Seq<char> {
    if s.len() > 0 && s[0] == sep {
        s.drop_first()
    } else {
        s
    }
}

/// The normalized form of a container name.
pub open spec fn norm_name(s: Seq<char>, sep: char) -> Seq<char> {
    strip_leading_sep(filter_name(s, sep), sep)
}

/// The position of the first `'.'` in `s`, if any.
pub open spec fn find_dot(s: Seq<char>) -> Option<int>
    decreases s.len(),
{
    if s.len() == 0 {
        None
    } else if s[0] == '.' {
        Some(0)
    } else {
        match find_dot(s.drop_first()) {
            None => None,
            Some(i) => Some(i + 1),
        }
    }
}

/// The normalized form of an item name that has a type suffix: the base
/// before the first dot follows the container rule, the suffix from the dot
/// on is lower-cased but not filtered.
pub open spec fn norm_item_name(s: Seq<char>, sep: char) -> Seq<char> {
    match find_dot(s) {
        Some(i) => norm_name(s.take(i), sep) + lower_seq(s.skip(i)),
        None => Seq::empty(),
    }
}

/// Relies on `String::push`: appends the given character to the end of the
/// string.
#[verifier::external_body]
fn push_char(s: &mut String, c: char)
    ensures
        final(s)@ == old(s)@.push(c),
{
    s.push(c)
}

/// ASCII lower-casing of one character.
fn to_lower(c: char) -> (r: char)
    ensures
        r == lower_char(c),
{
    let u = c as u32;
    if 65 <= u && u <= 90 {
        ((u + 32) as u8) as char
    } else {
        c
    }
}

/// Whether `c` survives the container-name filter.
fn keep_char(c: char, sep: char) -> (r: bool)
    ensures
        r == is_keep(c, sep),
{
    let u = c as u32;
    (97 <= u && u <= 122) || (48 <= u && u <= 57) || c == sep
}

/// Normalize the character range `from..to` of `input` as a container name.
fn norm_range(input: &str, from: usize, to: usize, sep: char) -> (r: String)
    requires
        from <= to <= input@.len(),
    ensures
        r@ == norm_name(input@.subrange(from as int, to as int), sep),
{
    let mut out = String::new();
    let mut any: bool = false;
    let mut i: usize = from;
    while i < to
        invariant
            from <= i <= to <= input@.len(),
            any <==> filter_name(input@.subrange(from as int, i as int), sep).len() > 0,
            out@ == strip_leading_sep(filter_name(input@.subrange(from as int, i as int), sep), sep),
        decreases to - i,
    {
        let c = to_lower(input.get_char(i));
        proof {
            assert(input@.subrange(from as int, i + 1 as int).drop_last() =~= input@.subrange(
                from as int,
                i as int,
            ));
            assert(input@.subrange(from as int, i + 1 as int).last() == input@[i as int]);
        }
        if keep_char(c, sep) {
            let ghost f = filter_name(input@.subrange(from as int, i as int), sep);
            if any || c != sep {
                push_char(&mut out, c);
            }
            proof {
                if f.len() > 0 {
                    assert(strip_leading_sep(f.push(c), sep) =~= strip_leading_sep(f, sep).push(c));
                } else {
                    assert(f.push(c)[0] == c);
                    if c == sep {
                        assert(strip_leading_sep(f.push(c), sep) =~= Seq::<char>::empty());
                    } else {
                        assert(strip_leading_sep(f.push(c), sep) =~= f.push(c));
                    }
                }
            }
            any = true;
        }
        i += 1;
    }
    out
}

/// Normalize a container name with the given separator: ASCII lower-case,
/// delete every character that is not a lower-case letter, a digit or the
/// separator, then strip one leading separator.
pub fn streamline_sep(input: &str, sep: char) -> (r: String)
    ensures
        r@ == norm_name(input@, sep),
{
    let n = input.unicode_len();
    let r = norm_range(input, 0, n, sep);
    proof {
        assert(input@.subrange(0, n as int) =~= input@);
    }
    r
}

/// Normalize a container name with the default (hyphen) separator.
pub fn streamline(input: &str) -> (r: String)
    ensures
        r@ == norm_name(input@, '-'),
{
    streamline_sep(input, '-')
}

/// Normalize an item name with the given separator. The name must contain a
/// `'.'`; the base before the first dot follows the container rule and the
/// suffix from the dot on is lower-cased unfiltered. A name without a dot is
/// rejected before any I/O with `ItemTypMissing`.
pub fn streamline_item_sep(input: &str, sep: char) -> (r: Result<String, StowError>)
    ensures
        match r {
            Ok(s) => find_dot(input@) is Some && s@ == norm_item_name(input@, sep),
            Err(e) => find_dot(input@) is None && e == StowError::ItemTypMissing,
        },
{
    let n = input.unicode_len();
    let mut i: usize = 0;
    while i < n && input.get_char(i) != '.'
        invariant
            i <= n,
            n == input@.len(),
            forall|j: int| 0 <= j < i ==> input@[j] != '.',
        decreases n - i,
    {
        i += 1;
    }
    proof {
        lemma_find_dot_characterization(input@, i as int);
    }
    if i == n {
        return Err(StowError::ItemTypMissing);
    }
    let mut out = norm_range(input, 0, i, sep);
    proof {
        assert(input@.subrange(0, i as int) =~= input@.take(i as int));
    }
    let mut j: usize = i;
    while j < n
        invariant
            i <= j <= n,
            n == input@.len(),
            out@ == norm_name(input@.take(i as int), sep) + lower_seq(
                input@.subrange(i as int, j as int),
            ),
        decreases n - j,
    {
        let c = to_lower(input.get_char(j));
        proof {
            assert(input@.subrange(i as int, j + 1 as int).drop_last() =~= input@.subrange(
                i as int,
                j as int,
            ));
            assert(input@.subrange(i as int, j + 1 as int).last() == input@[j as int]);
        }
        push_char(&mut out, c);
        j += 1;
    }
    proof {
        assert(input@.subrange(i as int, n as int) =~= input@.skip(i as int));
    }
    Ok(out)
}

/// Normalize an item name with the default (hyphen) separator.
pub fn streamline_item(input: &str) -> (r: Result<String, StowError>)
    ensures
        match r {
            Ok(s) => find_dot(input@) is Some && s@ == norm_item_name(input@, '-'),
            Err(e) => find_dot(input@) is None && e == StowError::ItemTypMissing,
        },
{
    streamline_item_sep(input, '-')
}

/// A name whose filtered form begins with two separators; stripping one
/// leading separator leaves another, so normalizing such a name twice strips
/// further than normalizing it once.
pub open spec fn double_leading_sep(s: Seq<char>, sep: char) -> bool {
    filter_name(s, sep).len() >= 2 && filter_name(s, sep)[0] == sep && filter_name(s, sep)[1] == sep
}

/// Every character of a filtered name survives the filter and is fixed under
/// lower-casing.
proof fn lemma_filter_name_chars(s: Seq<char>, sep: char)
    ensures
        forall|k: int|
            0 <= k < filter_name(s, sep).len() ==> is_keep(#[trigger] filter_name(s, sep)[k], sep)
                && lower_char(filter_name(s, sep)[k]) == filter_name(s, sep)[k],
    decreases s.len(),
{
    if s.len() > 0 {
        lemma_filter_name_chars(s.drop_last(), sep);
        let rest = filter_name(s.drop_last(), sep);
        let c = lower_char(s.last());
        assert(lower_char(c) == c);
        if is_keep(c, sep) {
            assert(filter_name(s, sep) == rest.push(c));
            assert forall|k: int| 0 <= k < filter_name(s, sep).len() implies is_keep(
                #[trigger] filter_name(s, sep)[k],
                sep,
            ) && lower_char(filter_name(s, sep)[k]) == filter_name(s, sep)[k] by {
                if k < rest.len() {
                    assert(filter_name(s, sep)[k] == rest[k]);
                } else {
                    assert(filter_name(s, sep)[k] == c);
                }
            }
        }
    }
}

/// Filtering leaves a sequence unchanged when each of its characters
/// survives the filter and is fixed under lower-casing.
proof fn lemma_filter_name_fixed(s: Seq<char>, sep: char)
    requires
        forall|k: int|
            0 <= k < s.len() ==> is_keep(#[trigger] s[k], sep) && lower_char(s[k]) == s[k],
    ensures
        filter_name(s, sep) == s,
    decreases s.len(),
{
    if s.len() > 0 {
        lemma_filter_name_fixed(s.drop_last(), sep);
        assert(filter_name(s, sep) =~= s);
    }
}

/// Lower-casing a sequence twice is the same as lower-casing it once.
proof fn lemma_lower_seq_idempotent(s: Seq<char>)
    ensures
        lower_seq(lower_seq(s)) == lower_seq(s),
    decreases s.len(),
{
    if s.len() > 0 {
        lemma_lower_seq_idempotent(s.drop_last());
        let t = lower_seq(s);
        assert(t.drop_last() =~= lower_seq(s.drop_last()));
        assert(lower_char(lower_char(s.last())) == lower_char(s.last()));
        assert(lower_seq(t) =~= lower_seq(t.drop_last()).push(lower_char(t.last())));
    }
}

/// Container normalization is idempotent: an already-normalized name is a
/// fixed point. The one family of inputs this does not hold of is excluded
/// by the precondition: a name whose filtered form begins with two
/// separators loses one per pass, since each pass strips a single leading
/// separator.
pub proof fn lemma_norm_name_idempotent(s: Seq<char>, sep: char)
    requires
        !double_leading_sep(s, sep),
    ensures
        norm_name(norm_name(s, sep), sep) == norm_name(s, sep),
{
    let f = filter_name(s, sep);
    let t = strip_leading_sep(f, sep);
    lemma_filter_name_chars(s, sep);
    assert(forall|k: int|
        0 <= k < t.len() ==> is_keep(#[trigger] t[k], sep) && lower_char(t[k]) == t[k]);
    lemma_filter_name_fixed(t, sep);
    if f.len() == 0 {
    } else if f[0] != sep {
        assert(t == f);
    } else {
        assert(t =~= f.drop_first());
        if t.len() > 0 {
            assert(t[0] == f[1]);
            assert(t[0] != sep);
        }
    }
    assert(strip_leading_sep(t, sep) == t);
}

/// Item normalization is idempotent on names that hold a type suffix: the
/// suffix of a normalized name starts at its first dot, lower-casing the
/// suffix again changes nothing, and the base is a fixed point of the
/// container rule. As for containers, a base whose filtered form begins
/// with two separators is excluded, as is a separator equal to the dot
/// itself.
pub proof fn lemma_norm_item_name_idempotent(s: Seq<char>, sep: char)
    requires
        sep != '.',
        find_dot(s) is Some,
        forall|i: int| find_dot(s) == Some(i) ==> !double_leading_sep(s.take(i), sep),
    ensures
        find_dot(norm_item_name(s, sep)) == Some(norm_name(s.take(find_dot(s)->Some_0), sep).len() as int),
        norm_item_name(norm_item_name(s, sep), sep) == norm_item_name(s, sep),
{
    let i = find_dot(s)->Some_0;
    lemma_find_dot_ensures(s);
    let base = norm_name(s.take(i), sep);
    let suffix = lower_seq(s.skip(i));
    let out = base + suffix;
    assert(out == norm_item_name(s, sep));

    lemma_filter_name_chars(s.take(i), sep);
    let f = filter_name(s.take(i), sep);
    assert(forall|k: int|
        0 <= k < base.len() ==> is_keep(#[trigger] base[k], sep) && lower_char(base[k]) == base[k]);
    assert(forall|k: int| 0 <= k < base.len() ==> base[k] != '.') by {
        assert(forall|k: int| 0 <= k < base.len() ==> is_keep(#[trigger] base[k], sep));
    }

    lemma_lower_seq_len(s.skip(i));
    assert(suffix.len() == s.skip(i).len());
    assert(s.skip(i).len() >= 1);
    lemma_lower_seq_index(s.skip(i), 0);
    assert(s.skip(i)[0] == s[i]);
    assert(suffix[0] == lower_char('.'));
    assert(suffix[0] == '.');

    let m = base.len() as int;
    assert(forall|j: int| 0 <= j < m ==> out[j] != '.');
    assert(out[m] == '.');
    lemma_find_dot_characterization(out, m);
    assert(find_dot(out) == Some(m));

    assert(out.take(m) =~= base);
    assert(out.skip(m) =~= suffix);
    lemma_filter_name_fixed(base, sep);
    // stripping the already-stripped base removes nothing further
    if f.len() == 0 {
    } else if f[0] != sep {
        assert(base == f);
    } else {
        assert(base =~= f.drop_first());
        if base.len() > 0 {
            assert(base[0] == f[1]);
            assert(base[0] != sep);
        }
    }
    assert(strip_leading_sep(base, sep) == base);
    assert(norm_name(base, sep) == base);
    lemma_lower_seq_idempotent(s.skip(i));
    assert(lower_seq(suffix) == suffix);
    assert(norm_item_name(out, sep) == base + suffix);
}

/// What `find_dot` returns is a dot position, and the first one.
proof fn lemma_find_dot_ensures(s: Seq<char>)
    ensures
        match find_dot(s) {
            Some(i) => 0 <= i < s.len() && s[i] == '.' && forall|j: int| 0 <= j < i ==> s[j] != '.',
            None => forall|j: int| 0 <= j < s.len() ==> s[j] != '.',
        },
    decreases s.len(),
{
    if s.len() > 0 && s[0] != '.' {
        lemma_find_dot_ensures(s.drop_first());
        let d = s.drop_first();
        match find_dot(d) {
            Some(i) => {
                assert(find_dot(s) == Some(i + 1));
                assert(s[i + 1] == d[i]);
                assert forall|j: int| 0 <= j < i + 1 implies s[j] != '.' by {
                    if j > 0 {
                        assert(s[j] == d[j - 1]);
                    }
                }
            },
            None => {
                assert forall|j: int| 0 <= j < s.len() implies s[j] != '.' by {
                    if j > 0 {
                        assert(s[j] == d[j - 1]);
                    }
                }
            },
        }
    }
}

/// Lower-casing keeps the length.
proof fn lemma_lower_seq_len(s: Seq<char>)
    ensures
        lower_seq(s).len() == s.len(),
    decreases s.len(),
{
    if s.len() > 0 {
        lemma_lower_seq_len(s.drop_last());
    }
}

/// Lower-casing acts character-wise.
proof fn lemma_lower_seq_index(s: Seq<char>, k: int)
    requires
        0 <= k < s.len(),
    ensures
        lower_seq(s).len() == s.len(),
        lower_seq(s)[k] == lower_char(s[k]),
    decreases s.len(),
{
    lemma_lower_seq_len(s);
    if k == s.len() - 1 {
    } else {
        lemma_lower_seq_index(s.drop_last(), k);
    }
}

/// `find_dot` returns exactly the first position holding a dot: if no
/// position below `i` holds one, and `i` is either the length or a dot, then
/// `find_dot` is `Some(i)` or `None` accordingly.
proof fn lemma_find_dot_characterization(s: Seq<char>, i: int)
    requires
        0 <= i <= s.len(),
        forall|j: int| 0 <= j < i ==> s[j] != '.',
        i < s.len() ==> s[i] == '.',
    ensures
        i < s.len() ==> find_dot(s) == Some(i),
        i == s.len() ==> find_dot(s) is None,
    decreases s.len(),
{
    if s.len() == 0 {
    } else if s[0] == '.' {
        assert(i == 0);
    } else {
        assert(i >= 1);
        lemma_find_dot_characterization(s.drop_first(), i - 1);
    }
}

} // verus!
