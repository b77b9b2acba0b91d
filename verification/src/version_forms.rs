//! The shapes of version strings whose order is plain: semantic versions
//! `x.y.z` and `x.y.z-pre`, and two-part versions `x.y`.
use vstd::prelude::*;
use crate::text::{char_pos, lemma_char_pos_unique, lemma_first_segment_of_joined, split_on, split_once_spec};

verus! {

pub open spec fn is_ascii_digit(c: char) -> bool {
    '0' <= c && c <= '9'
}

pub open spec fn is_ascii_alphanumeric(c: char) -> bool {
    is_ascii_digit(c) || ('a' <= c && c <= 'z') || ('A' <= c && c <= 'Z')
}

/// Every character is a decimal digit.
pub open spec fn all_digits(s: Seq<char>) -> bool {
    forall|j: int| 0 <= j < s.len() ==> is_ascii_digit(#[trigger] s[j])
}

/// The value of a string of decimal digits.
pub open spec fn digits_value(s: Seq<char>) -> int
    decreases s.len(),
{
    if s.len() == 0 {
        0
    } else {
        digits_value(s.drop_last()) * 10 + ((s.last() as u32) - ('0' as u32))
    }
}

/// A number as a version writes it: decimal digits, with no leading zero
/// but in `0` itself, of a value that fits in 32 bits.
pub open spec fn is_numeral(s: Seq<char>) -> bool {
    &&& s.len() > 0
    &&& all_digits(s)
    &&& (s.len() == 1 || s[0] != '0')
    &&& digits_value(s) < 0x1_0000_0000
}

/// One identifier of a pre-release: ASCII letters, digits and hyphens,
/// either a number or holding something other than a digit.
pub open spec fn is_prerelease_identifier(s: Seq<char>) -> bool {
    &&& s.len() > 0
    &&& forall|j: int| 0 <= j < s.len() ==> is_ascii_alphanumeric(#[trigger] s[j]) || s[j] == '-'
    &&& (is_numeral(s) || exists|j: int| 0 <= j < s.len() && !is_ascii_digit(#[trigger] s[j]))
}

/// A pre-release: identifiers separated by dots.
pub open spec fn is_prerelease(p: Seq<char>) -> bool {
    forall|i: int| 0 <= i < split_on(p, '.').len() ==> is_prerelease_identifier(#[trigger] split_on(p, '.')[i])
}

/// Major, minor and patch of a core version `x.y.z`.
pub open spec fn version_core(s: Seq<char>) -> Option<(int, int, int)> {
    let parts = split_on(s, '.');
    if parts.len() == 3 && is_numeral(parts[0]) && is_numeral(parts[1]) && is_numeral(parts[2]) {
        Some((digits_value(parts[0]), digits_value(parts[1]), digits_value(parts[2])))
    } else {
        None
    }
}

/// A semantic version with no build metadata, `x.y.z` or `x.y.z-pre`: its
/// major, minor and patch, and whether it is a pre-release.
pub open spec fn semver_parts(s: Seq<char>) -> Option<(int, int, int, bool)> {
    match split_once_spec(s, '-') {
        None => match version_core(s) {
            Some((x, y, z)) => Some((x, y, z, false)),
            None => None,
        },
        Some((core, pre)) => if is_prerelease(pre) {
            match version_core(core) {
                Some((x, y, z)) => Some((x, y, z, true)),
                None => None,
            }
        } else {
            None
        },
    }
}

/// The two numbers of a two-part version `x.y`.
pub open spec fn two_part_numeral(s: Seq<char>) -> Option<(int, int)> {
    let parts = split_on(s, '.');
    if parts.len() == 2 && is_numeral(parts[0]) && is_numeral(parts[1]) {
        Some((digits_value(parts[0]), digits_value(parts[1])))
    } else {
        None
    }
}

/// -1 or 1 as `x` is below or above `y`, which differ.
pub open spec fn sign_of_order(x: int, y: int) -> int {
    if x < y {
        -1
    } else {
        1
    }
}

/// Semantic-version precedence where it is fixed without looking into
/// pre-releases: by major, minor and patch, and between equal ones a
/// pre-release below the release; open between two pre-releases of one
/// version.
pub open spec fn semver_precedence(a: (int, int, int, bool), b: (int, int, int, bool)) -> Option<int> {
    if a.0 != b.0 {
        Some(sign_of_order(a.0, b.0))
    } else if a.1 != b.1 {
        Some(sign_of_order(a.1, b.1))
    } else if a.2 != b.2 {
        Some(sign_of_order(a.2, b.2))
    } else if a.3 == b.3 {
        if a.3 {
            None
        } else {
            Some(0)
        }
    } else if a.3 {
        Some(-1)
    } else {
        Some(1)
    }
}

/// The order of two version strings where their shapes fix it: -1, 0 or 1.
/// Two semantic versions go by their precedence; a two-part version and a
/// semantic version of another major go by their majors.
pub open spec fn plain_version_order(a: Seq<char>, b: Seq<char>) -> Option<int> {
    match (semver_parts(a), semver_parts(b)) {
        (Some(pa), Some(pb)) => semver_precedence(pa, pb),
        (None, Some(pb)) => match two_part_numeral(a) {
            Some((n, _)) => if n != pb.0 {
                Some(sign_of_order(n, pb.0))
            } else {
                None
            },
            None => None,
        },
        (Some(pa), None) => match two_part_numeral(b) {
            Some((n, _)) => if pa.0 != n {
                Some(sign_of_order(pa.0, n))
            } else {
                None
            },
            None => None,
        },
        (None, None) => None,
    }
}

/// Where the order of two versions is fixed, swapping them reverses it.
pub proof fn lemma_plain_version_order_swap(a: Seq<char>, b: Seq<char>)
    ensures
        plain_version_order(a, b) matches Some(o) ==> plain_version_order(b, a) == Some(-o)
            && -1 <= o <= 1,
        plain_version_order(a, b) is None ==> plain_version_order(b, a) is None,
{
}

/// Every character of a string whose dot-separated pieces are all digits is
/// a digit or a dot.
proof fn lemma_digit_pieces(s: Seq<char>)
    requires
        forall|i: int| 0 <= i < split_on(s, '.').len() ==> all_digits(#[trigger] split_on(s, '.')[i]),
    ensures
        forall|j: int| 0 <= j < s.len() ==> #[trigger] s[j] == '.' || is_ascii_digit(s[j]),
    decreases s.len(),
{
    if s.len() > 0 {
        let init = s.drop_last();
        let rest = split_on(init, '.');
        crate::text::lemma_split_on_len(init, '.');
        if s.last() != '.' {
            let last = rest.last().push(s.last());
            assert(split_on(s, '.') == rest.update(rest.len() - 1, last));
            assert(split_on(s, '.')[rest.len() - 1] == last);
            assert(all_digits(last));
            assert(is_ascii_digit(last[last.len() - 1]));
            assert forall|i: int| 0 <= i < rest.len() implies all_digits(#[trigger] rest[i]) by {
                if i == rest.len() - 1 {
                    assert forall|j: int| 0 <= j < rest[i].len() implies is_ascii_digit(#[trigger] rest[i][j]) by {
                        assert(last[j] == rest[i][j]);
                    }
                } else {
                    assert(split_on(s, '.')[i] == rest[i]);
                }
            }
        } else {
            assert(split_on(s, '.') == rest.push(Seq::<char>::empty()));
            assert forall|i: int| 0 <= i < rest.len() implies all_digits(#[trigger] rest[i]) by {
                assert(split_on(s, '.')[i] == rest[i]);
            }
        }
        lemma_digit_pieces(init);
        assert forall|j: int| 0 <= j < s.len() implies #[trigger] s[j] == '.' || is_ascii_digit(s[j]) by {
            if j < init.len() {
                assert(s[j] == init[j]);
            }
        }
    }
}

/// A pre-release of a core version `x.y.z` comes before the release itself,
/// and a core version with no pre-release is a semantic version of its
/// three numbers.
pub proof fn lemma_prerelease_below_release(core: Seq<char>, pre: Seq<char>)
    requires
        version_core(core) is Some,
        is_prerelease(pre),
    ensures
        semver_parts(core) == Some(
            (version_core(core).unwrap().0, version_core(core).unwrap().1, version_core(core).unwrap().2, false),
        ),
        semver_parts(core + "-"@ + pre) == Some(
            (version_core(core).unwrap().0, version_core(core).unwrap().1, version_core(core).unwrap().2, true),
        ),
        plain_version_order(core + "-"@ + pre, core) == Some(-1int),
        plain_version_order(core, core + "-"@ + pre) == Some(1int),
        core.len() > 0,
        forall|j: int| 0 <= j < core.len() ==> #[trigger] core[j] == '.' || is_ascii_digit(core[j]),
{
    reveal_strlit("-");
    assert("-"@ =~= seq!['-']);
    let parts = split_on(core, '.');
    assert forall|i: int| 0 <= i < parts.len() implies all_digits(#[trigger] parts[i]) by {
        assert(is_numeral(parts[i]));
    }
    lemma_digit_pieces(core);
    assert forall|j: int| 0 <= j < core.len() implies core[j] != '-' by {
        assert(core[j] == '.' || is_ascii_digit(core[j]));
    }
    lemma_char_pos_unique(core, '-', -1);
    assert(char_pos(core, '-') < 0);
    lemma_first_segment_of_joined(core, '-', pre);
    assert(split_once_spec(core + "-"@ + pre, '-') == Some((core, pre)));
}

} // verus!
