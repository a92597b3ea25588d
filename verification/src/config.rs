//! Run configuration, parsed from plain text lines.
//!
//! The text format holds a `[PROFILE]` section with one base answer per line
//! and an `[ATTACKS]` section with one `INDEX=path` line per attack. Blank
//! lines and `#` comments are skipped everywhere. A parse succeeds only when
//! the profile holds exactly 25 answers. Reading the file itself, and the
//! dictionaries the attack paths point at, is the caller's concern: the
//! parser consumes lines, and dictionaries are normalized from lines.

use vstd::prelude::*;
use vstd::string::StrSliceExecFns;

use crate::orderer::{norm_of, normalize_slot, trim_of, trim_str};

verus! {

/// Whether `c` is an ASCII decimal digit.
pub open spec fn spec_is_digit(c: char) -> bool {
    48 <= c as int <= 57
}

/// The value of an ASCII decimal digit.
pub open spec fn spec_digit_val(c: char) -> int {
    c as int - 48
}

/// The base-10 value of a digit string.
pub open spec fn spec_dec_val(s: Seq<char>) -> int
    decreases s.len(),
{
    if s.len() == 0 {
        0
    } else {
        spec_dec_val(s.drop_last()) * 10 + spec_digit_val(s.last())
    }
}

/// The digits of an unsigned decimal literal: an optional leading plus sign
/// is dropped.
pub open spec fn spec_digits_of(s: Seq<char>) -> Seq<char> {
    if s.len() > 0 && s[0] == '+' {
        s.skip(1)
    } else {
        s
    }
}

/// What parsing `s` as an unsigned decimal number yields: its value when,
/// after an optional leading plus sign, `s` is one or more decimal digits
/// whose value fits the machine word; nothing otherwise.
pub open spec fn spec_parse_usize(s: Seq<char>) -> Option<int> {
    let d = spec_digits_of(s);
    if d.len() > 0 && (forall|j: int| 0 <= j < d.len() ==> spec_is_digit(#[trigger] d[j]))
        && spec_dec_val(d) <= usize::MAX {
        Some(spec_dec_val(d))
    } else {
        None
    }
}

proof fn lemma_dec_val_nonneg(s: Seq<char>)
    requires
        forall|j: int| 0 <= j < s.len() ==> spec_is_digit(#[trigger] s[j]),
    ensures
        spec_dec_val(s) >= 0,
    decreases s.len(),
{
    if s.len() > 0 {
        lemma_dec_val_nonneg(s.drop_last());
    }
}

proof fn lemma_dec_val_prefix(s: Seq<char>, i: int)
    requires
        forall|j: int| 0 <= j < s.len() ==> spec_is_digit(#[trigger] s[j]),
        0 <= i <= s.len(),
    ensures
        spec_dec_val(s.take(i)) <= spec_dec_val(s),
    decreases s.len(),
{
    if i < s.len() {
        assert(s.drop_last().take(i) =~= s.take(i));
        lemma_dec_val_prefix(s.drop_last(), i);
        lemma_dec_val_nonneg(s.drop_last());
    } else {
        assert(s.take(i) =~= s);
    }
}

/// Parses an unsigned decimal number, exactly as the configuration format
/// accepts one: optional leading plus sign, then decimal digits, rejected
/// on any other character or when the value does not fit the machine word.
pub fn parse_usize(s: &str) -> (r: Option<usize>)
    ensures
        match r {
            Some(v) => spec_parse_usize(s@) == Some(v as int),
            None => spec_parse_usize(s@) is None,
        },
{
    let n = s.unicode_len();
    let ghost d = spec_digits_of(s@);
    let mut start: usize = 0;
    if n > 0 && s.get_char(0) == '+' {
        start = 1;
    }
    proof {
        assert(d =~= s@.skip(start as int));
    }
    if n == start {
        return None;
    }
    let mut val: usize = 0;
    let mut i: usize = start;
    while i < n
        invariant
            n == s@.len(),
            start <= i <= n,
            start <= 1,
            d == spec_digits_of(s@),
            d =~= s@.skip(start as int),
            forall|j: int| 0 <= j < i - start ==> spec_is_digit(#[trigger] d[j]),
            val == spec_dec_val(d.take(i - start)),
        decreases n - i,
    {
        let c = s.get_char(i);
        let u = c as u32;
        if u < 48 || u > 57 {
            proof {
                assert(d[i - start] == s@[i as int]);
                assert(!spec_is_digit(d[i - start]));
            }
            return None;
        }
        let digit = (u - 48) as usize;
        proof {
            assert(d.take(i - start + 1).drop_last() =~= d.take(i - start));
            assert(d.take(i - start + 1).last() == s@[i as int]);
        }
        let next = match val.checked_mul(10) {
            Some(x) => x.checked_add(digit),
            None => None,
        };
        match next {
            Some(y) => {
                val = y;
            },
            None => {
                proof {
                    assert(spec_dec_val(d.take(i - start + 1)) > usize::MAX);
                    if forall|j: int| 0 <= j < d.len() ==> spec_is_digit(#[trigger] d[j]) {
                        lemma_dec_val_prefix(d, i - start + 1);
                    }
                }
                return None;
            },
        }
        i += 1;
    }
    proof {
        assert(d.take(n - start) =~= d);
    }
    Some(val)
}

/// `e` is the position of the first equals sign of `t`.
pub open spec fn spec_is_first_eq(t: Seq<char>, e: int) -> bool {
    0 <= e < t.len() && t[e] == '=' && forall|j: int| 0 <= j < e ==> t[j] != '='
}

/// The position of the first equals sign of `t`, if any.
pub open spec fn spec_first_eq(t: Seq<char>) -> Option<int> {
    if exists|e: int| spec_is_first_eq(t, e) {
        Some(choose|e: int| spec_is_first_eq(t, e))
    } else {
        None
    }
}

proof fn lemma_first_eq_unique(t: Seq<char>, e: int)
    requires
        spec_is_first_eq(t, e),
    ensures
        spec_first_eq(t) == Some(e),
{
    let c = choose|c: int| spec_is_first_eq(t, c);
    if c < e {
        assert(t[c] != '=');
    }
    if e < c {
        assert(t[e] != '=');
    }
}

/// Finds the first equals sign of a line, the split point between an attack
/// line's slot index and its dictionary path.
fn find_eq(t: &str) -> (r: Option<usize>)
    ensures
        match r {
            Some(e) => spec_first_eq(t@) == Some(e as int),
            None => spec_first_eq(t@) is None,
        },
{
    let n = t.unicode_len();
    let mut i: usize = 0;
    while i < n
        invariant
            n == t@.len(),
            i <= n,
            forall|j: int| 0 <= j < i ==> t@[j] != '=',
        decreases n - i,
    {
        if t.get_char(i) == '=' {
            proof {
                lemma_first_eq_unique(t@, i as int);
            }
            return Some(i);
        }
        i += 1;
    }
    proof {
        if exists|e: int| spec_is_first_eq(t@, e) {
            let e = choose|e: int| spec_is_first_eq(t@, e);
            assert(t@[e] != '=');
        }
    }
    None
}

/// One attack descriptor: the slot index under attack and the path of the
/// dictionary to overlay on it.
pub struct AttackSpec {
    pub index: usize,
    pub dict_path: String,
}

/// The mathematical content of an attack descriptor.
pub open spec fn spec_attack_rec(a: AttackSpec) -> (int, Seq<char>) {
    (a.index as int, a.dict_path@)
}

/// The mathematical content of a list of attack descriptors.
pub open spec fn spec_attack_recs(s: Seq<AttackSpec>) -> Seq<(int, Seq<char>)> {
    s.map_values(|a: AttackSpec| spec_attack_rec(a))
}

/// A parsed configuration: the 25-answer base profile and the attack list,
/// in declaration order.
pub struct ConfigData {
    pub base_profile: Vec<String>,
    pub attacks: Vec<AttackSpec>,
}

/// The parser's accumulated state: profile lines and attack descriptors
/// gathered so far, and which section is being read.
pub ghost struct ParseState {
    pub profile: Seq<Seq<char>>,
    pub attacks: Seq<(int, Seq<char>)>,
    pub reading_profile: bool,
}

/// How one line changes the parser state. Blank lines and comments change
/// nothing; section headers switch the section; a profile-section line is
/// one base answer; any other line counts as an attack only when it splits
/// at its first equals sign into a slot index in range and a path.
pub open spec fn spec_step_line(st: ParseState, line: Seq<char>) -> ParseState {
    let t = trim_of(line);
    if t.len() == 0 || t[0] == '#' {
        st
    } else if t == "[PROFILE]"@ {
        ParseState { profile: st.profile, attacks: st.attacks, reading_profile: true }
    } else if t == "[ATTACKS]"@ {
        ParseState { profile: st.profile, attacks: st.attacks, reading_profile: false }
    } else if st.reading_profile {
        ParseState {
            profile: st.profile.push(t),
            attacks: st.attacks,
            reading_profile: st.reading_profile,
        }
    } else {
        match spec_first_eq(t) {
            Some(e) => {
                let idx_txt = trim_of(t.take(e));
                let path = trim_of(t.skip(e + 1));
                match spec_parse_usize(idx_txt) {
                    Some(v) => if v < 25 {
                        ParseState {
                            profile: st.profile,
                            attacks: st.attacks.push((v, path)),
                            reading_profile: st.reading_profile,
                        }
                    } else {
                        st
                    },
                    None => st,
                }
            },
            None => st,
        }
    }
}

/// The parser state after consuming all lines, in order, starting outside
/// the profile section.
pub open spec fn spec_parse_lines(lines: Seq<Seq<char>>) -> ParseState
    decreases lines.len(),
{
    if lines.len() == 0 {
        ParseState { profile: seq![], attacks: seq![], reading_profile: false }
    } else {
        spec_step_line(spec_parse_lines(lines.drop_last()), lines.last())
    }
}

/// Parses configuration lines. Succeeds exactly when the profile section
/// holds exactly 25 answers; the parsed attacks all carry a slot index in
/// range.
pub fn parse_config(lines: &Vec<String>) -> (r: Option<ConfigData>)
    ensures
        match r {
            Some(c) => {
                let st = spec_parse_lines(lines.deep_view());
                &&& st.profile.len() == 25
                &&& c.base_profile.deep_view() == st.profile
                &&& c.base_profile@.len() == 25
                &&& spec_attack_recs(c.attacks@) == st.attacks
                &&& forall|i: int|
                    0 <= i < c.attacks@.len() ==> (#[trigger] c.attacks@[i]).index < 25
            },
            None => spec_parse_lines(lines.deep_view()).profile.len() != 25,
        },
{
    let hdr_profile: String = "[PROFILE]".to_owned();
    let hdr_attacks: String = "[ATTACKS]".to_owned();
    let mut profile: Vec<String> = Vec::new();
    let mut attacks: Vec<AttackSpec> = Vec::new();
    let mut reading_profile = false;
    let mut i: usize = 0;
    while i < lines.len()
        invariant
            hdr_profile@ == "[PROFILE]"@,
            hdr_attacks@ == "[ATTACKS]"@,
            i <= lines@.len(),
            profile.deep_view() == spec_parse_lines(lines.deep_view().take(i as int)).profile,
            spec_attack_recs(attacks@) == spec_parse_lines(
                lines.deep_view().take(i as int),
            ).attacks,
            reading_profile == spec_parse_lines(lines.deep_view().take(i as int)).reading_profile,
            forall|t: int| 0 <= t < attacks@.len() ==> (#[trigger] attacks@[t]).index < 25,
        decreases lines@.len() - i,
    {
        let ghost pre = spec_parse_lines(lines.deep_view().take(i as int));
        let ghost post = spec_parse_lines(lines.deep_view().take(i + 1));
        proof {
            assert(lines.deep_view().take(i + 1).drop_last() =~= lines.deep_view().take(i as int));
            assert(lines.deep_view().take(i + 1).last() == lines@[i as int]@);
            assert(post == spec_step_line(pre, lines@[i as int]@));
        }
        let t = trim_str(lines[i].as_str());
        let tlen = t.as_str().unicode_len();
        if tlen == 0 || t.as_str().get_char(0) == '#' {
            // comment or blank: nothing changes
        } else if t == hdr_profile {
            reading_profile = true;
        } else if t == hdr_attacks {
            reading_profile = false;
        } else if reading_profile {
            let ghost prev_profile = profile.deep_view();
            profile.push(t);
            proof {
                assert(profile.deep_view() =~~= prev_profile.push(t@));
            }
        } else {
            match find_eq(t.as_str()) {
                None => {
                    // no split point: not an attack line
                },
                Some(e) => {
                    let idx_txt = trim_str(t.as_str().substring_char(0, e));
                    let path = trim_str(t.as_str().substring_char(e + 1, tlen));
                    proof {
                        assert(t@.subrange(0, e as int) =~= t@.take(e as int));
                        assert(t@.subrange(e + 1, tlen as int) =~= t@.skip(e + 1));
                    }
                    match parse_usize(idx_txt.as_str()) {
                        Some(v) => {
                            if v < 25 {
                                let ghost prev_attacks = spec_attack_recs(attacks@);
                                attacks.push(AttackSpec { index: v, dict_path: path });
                                proof {
                                    assert(spec_attack_recs(attacks@) =~= prev_attacks.push(
                                        (v as int, post.attacks.last().1),
                                    ));
                                }
                            }
                        },
                        None => {},
                    }
                },
            }
        }
        i += 1;
    }
    proof {
        assert(lines.deep_view().take(lines@.len() as int) =~= lines.deep_view());
    }
    if profile.len() == 25 {
        Some(ConfigData { base_profile: profile, attacks })
    } else {
        None
    }
}

/// What normalizing dictionary lines yields: each line trimmed and
/// lowercased, blank results dropped, order kept.
pub open spec fn spec_normalize_lines(lines: Seq<Seq<char>>) -> Seq<Seq<char>>
    decreases lines.len(),
{
    if lines.len() == 0 {
        seq![]
    } else {
        let rest = spec_normalize_lines(lines.drop_last());
        let n = norm_of(lines.last());
        if n.len() == 0 {
            rest
        } else {
            rest.push(n)
        }
    }
}

/// Normalizes raw dictionary lines into dictionary words: trims and
/// lowercases each line and drops the ones left empty, keeping file order.
pub fn normalize_lines(lines: &Vec<String>) -> (r: Vec<String>)
    ensures
        r.deep_view() == spec_normalize_lines(lines.deep_view()),
{
    let mut out: Vec<String> = Vec::new();
    let mut i: usize = 0;
    while i < lines.len()
        invariant
            i <= lines@.len(),
            out.deep_view() == spec_normalize_lines(lines.deep_view().take(i as int)),
        decreases lines@.len() - i,
    {
        proof {
            assert(lines.deep_view().take(i + 1).drop_last() =~= lines.deep_view().take(i as int));
            assert(lines.deep_view().take(i + 1).last() == lines@[i as int]@);
        }
        let w = normalize_slot(lines[i].as_str());
        if w.as_str().unicode_len() > 0 {
            let ghost prev = out.deep_view();
            out.push(w);
            proof {
                assert(out.deep_view() =~~= prev.push(norm_of(lines@[i as int]@)));
            }
        }
        i += 1;
    }
    proof {
        assert(lines.deep_view().take(lines@.len() as int) =~= lines.deep_view());
    }
    out
}

} // verus!
