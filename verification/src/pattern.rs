//! The model of the `Firefox-iOS-Sync` user-agent shape.
//!
//! A recognized header value has the exact form
//! `Firefox-iOS-Sync/<major>.<minor-etc>b<build> (<device>; iPhone OS <system>) (<display>)`
//! anchored at both ends: `<major>` and `<build>` are runs of decimal digits,
//! `<minor-etc>` and `<system>` are runs of digits and dots, `<device>` is a
//! run of word characters, `<display>` is any text without a line break, and
//! each blank is a single whitespace character.
//!
//! Two equivalent spec views of that shape are given: [`UaParts`], which names
//! the segments and reassembles them by concatenation, and [`shape_at`], which
//! pins the boundary positions inside one string. The lemmas at the end relate
//! the two and show that a string determines its segments.

use vstd::prelude::*;

verus! {

/// A character is a decimal digit.
pub open spec fn digit(c: char) -> bool {
    '0' <= c && c <= '9'
}

/// A character is a decimal digit or a dot.
pub open spec fn dot_digit(c: char) -> bool {
    c == '.' || digit(c)
}

/// A character is a word character: a letter, a digit or an underscore.
pub open spec fn word_char(c: char) -> bool {
    ('a' <= c && c <= 'z') || ('A' <= c && c <= 'Z') || digit(c) || c == '_'
}

/// A character is whitespace: one with the Unicode `White_Space` property.
pub open spec fn space_char(c: char) -> bool {
    ||| c == ' ' || c == '\t' || c == '\n' || c == '\r' || c == '\x0b' || c == '\x0c'
    ||| c == '\u{85}' || c == '\u{a0}' || c == '\u{1680}'
    ||| '\u{2000}' <= c && c <= '\u{200a}'
    ||| c == '\u{2028}' || c == '\u{2029}' || c == '\u{202f}' || c == '\u{205f}'
    ||| c == '\u{3000}'
}

/// Every character of `s` is a decimal digit.
pub open spec fn all_digits(s: Seq<char>) -> bool {
    forall|i: int| 0 <= i < s.len() ==> digit(#[trigger] s[i])
}

/// Every character of `s` is a digit or a dot.
pub open spec fn all_dot_digits(s: Seq<char>) -> bool {
    forall|i: int| 0 <= i < s.len() ==> dot_digit(#[trigger] s[i])
}

/// Every character of `s` is a word character.
pub open spec fn all_word_chars(s: Seq<char>) -> bool {
    forall|i: int| 0 <= i < s.len() ==> word_char(#[trigger] s[i])
}

/// No character of `s` is a line break.
pub open spec fn no_newline(s: Seq<char>) -> bool {
    forall|i: int| 0 <= i < s.len() ==> #[trigger] s[i] != '\n'
}

/// The fixed product prefix, `Firefox-iOS-Sync/`.
pub open spec fn spec_prefix() -> Seq<char> {
    seq!['F', 'i', 'r', 'e', 'f', 'o', 'x', '-', 'i', 'O', 'S', '-', 'S', 'y', 'n', 'c', '/']
}

/// The numeric value of one digit character.
pub open spec fn digit_val(c: char) -> int {
    if c == '0' {
        0
    } else if c == '1' {
        1
    } else if c == '2' {
        2
    } else if c == '3' {
        3
    } else if c == '4' {
        4
    } else if c == '5' {
        5
    } else if c == '6' {
        6
    } else if c == '7' {
        7
    } else if c == '8' {
        8
    } else {
        9
    }
}

/// The value of a run of digit characters read as a decimal number.
pub open spec fn digits_val(s: Seq<char>) -> int
    decreases s.len(),
{
    if s.len() == 0 {
        0
    } else {
        10 * digits_val(s.drop_last()) + digit_val(s.last())
    }
}

/// The segments of a recognized user-agent value.
pub struct UaParts {
    /// The client's major version, a run of digits.
    pub major: Seq<char>,
    /// The rest of the version number, a run of digits and dots.
    pub minor: Seq<char>,
    /// The build number, a run of digits.
    pub build: Seq<char>,
    /// The device model, a run of word characters.
    pub device: Seq<char>,
    /// The operating-system version, a run of digits and dots.
    pub os_version: Seq<char>,
    /// The display name, any text without a line break.
    pub display: Seq<char>,
    /// The whitespace before the opening parenthesis of the device segment.
    pub sp1: char,
    /// The whitespace after the semicolon.
    pub sp2: char,
    /// The whitespace between `iPhone` and `OS`.
    pub sp3: char,
    /// The whitespace between `OS` and the system version.
    pub sp4: char,
    /// The whitespace before the display segment.
    pub sp5: char,
}

impl UaParts {
    /// Each segment has the contents its place in the shape requires.
    pub open spec fn wf(self) -> bool {
        &&& self.major.len() >= 1 && all_digits(self.major)
        &&& self.minor.len() >= 1 && all_dot_digits(self.minor)
        &&& self.build.len() >= 1 && all_digits(self.build)
        &&& self.device.len() >= 1 && all_word_chars(self.device)
        &&& self.os_version.len() >= 1 && all_dot_digits(self.os_version)
        &&& no_newline(self.display)
        &&& space_char(self.sp1) && space_char(self.sp2) && space_char(self.sp3)
        &&& space_char(self.sp4) && space_char(self.sp5)
    }

    /// The full header value these segments assemble into.
    pub open spec fn assembled(self) -> Seq<char> {
        spec_prefix() + self.major + seq!['.'] + self.minor + seq!['b'] + self.build + seq![
            self.sp1,
            '(',
        ] + self.device + seq![';', self.sp2] + seq![
            'i',
            'P',
            'h',
            'o',
            'n',
            'e',
            self.sp3,
            'O',
            'S',
            self.sp4,
        ] + self.os_version + seq![')', self.sp5, '('] + self.display + seq![')']
    }

    /// The position of the dot after the major version in the assembled value.
    pub open spec fn t1(self) -> int {
        17 + self.major.len() as int
    }

    /// The position of the `b` before the build number.
    pub open spec fn t2(self) -> int {
        self.t1() + 1 + self.minor.len() as int
    }

    /// The position of the whitespace after the build number.
    pub open spec fn t3(self) -> int {
        self.t2() + 1 + self.build.len() as int
    }

    /// The position of the semicolon after the device model.
    pub open spec fn t4(self) -> int {
        self.t3() + 2 + self.device.len() as int
    }

    /// The position of the closing parenthesis after the system version.
    pub open spec fn t5(self) -> int {
        self.t4() + 12 + self.os_version.len() as int
    }
}

/// The string `s` has the recognized shape, with its boundaries at the given
/// positions: the dot after the major version at `t1`, the `b` at `t2`, the
/// whitespace after the build number at `t3`, the semicolon at `t4`, and the
/// closing parenthesis after the system version at `t5`.
pub open spec fn shape_at(s: Seq<char>, t1: int, t2: int, t3: int, t4: int, t5: int) -> bool {
    &&& 18 <= t1
    &&& t1 + 2 <= t2
    &&& t2 + 2 <= t3
    &&& t3 + 3 <= t4
    &&& t4 + 13 <= t5
    &&& t5 + 4 <= s.len()
    &&& forall|j: int| 0 <= j < 17 ==> #[trigger] s[j] == spec_prefix()[j]
    &&& forall|j: int| 17 <= j < t1 ==> digit(#[trigger] s[j])
    &&& s[t1] == '.'
    &&& forall|j: int| t1 + 1 <= j < t2 ==> dot_digit(#[trigger] s[j])
    &&& s[t2] == 'b'
    &&& forall|j: int| t2 + 1 <= j < t3 ==> digit(#[trigger] s[j])
    &&& space_char(s[t3])
    &&& s[t3 + 1] == '('
    &&& forall|j: int| t3 + 2 <= j < t4 ==> word_char(#[trigger] s[j])
    &&& s[t4] == ';'
    &&& space_char(s[t4 + 1])
    &&& s[t4 + 2] == 'i'
    &&& s[t4 + 3] == 'P'
    &&& s[t4 + 4] == 'h'
    &&& s[t4 + 5] == 'o'
    &&& s[t4 + 6] == 'n'
    &&& s[t4 + 7] == 'e'
    &&& space_char(s[t4 + 8])
    &&& s[t4 + 9] == 'O'
    &&& s[t4 + 10] == 'S'
    &&& space_char(s[t4 + 11])
    &&& forall|j: int| t4 + 12 <= j < t5 ==> dot_digit(#[trigger] s[j])
    &&& s[t5] == ')'
    &&& space_char(s[t5 + 1])
    &&& s[t5 + 2] == '('
    &&& forall|j: int| t5 + 3 <= j < s.len() - 1 ==> #[trigger] s[j] != '\n'
    &&& s[s.len() - 1] == ')'
}

/// The header value matches the recognized shape.
pub open spec fn spec_matches(s: Seq<char>) -> bool {
    exists|p: UaParts| p.wf() && s == p.assembled()
}

/// The header value matches the recognized shape and carries a major version
/// below the threshold, so the request is rejected.
pub open spec fn spec_should_reject(s: Seq<char>) -> bool {
    exists|p: UaParts|
        p.wf() && s == p.assembled() && digits_val(p.major) < MIN_SUPPORTED_MAJOR as int
}

/// The lowest major version that the filter allows through.
pub const MIN_SUPPORTED_MAJOR: u32 = 20;

/// Reading one more digit multiplies the value so far by ten and adds it.
pub(crate) proof fn lemma_digits_val_step(s: Seq<char>, lo: int, i: int)
    requires
        0 <= lo <= i < s.len(),
    ensures
        digits_val(s.subrange(lo, i + 1)) == 10 * digits_val(s.subrange(lo, i)) + digit_val(s[i]),
{
    let a = s.subrange(lo, i + 1);
    assert(a.drop_last() =~= s.subrange(lo, i));
    assert(a.last() == s[i]);
}

/// Well-formed segments assemble into a string of the recognized shape, whose
/// boundary positions are fixed by the segment lengths, and whose major
/// version reads back as the major segment.
pub(crate) proof fn lemma_parts_shape(s: Seq<char>, p: UaParts)
    requires
        p.wf(),
        s == p.assembled(),
    ensures
        shape_at(s, p.t1(), p.t2(), p.t3(), p.t4(), p.t5()),
        p.major == s.subrange(17, p.t1()),
{
    let s0 = spec_prefix();
    let s1 = s0 + p.major;
    let s2 = s1 + seq!['.'];
    let s3 = s2 + p.minor;
    let s4 = s3 + seq!['b'];
    let s5 = s4 + p.build;
    let s6 = s5 + seq![p.sp1, '('];
    let s7 = s6 + p.device;
    let s8 = s7 + seq![';', p.sp2];
    let s9 = s8 + seq!['i', 'P', 'h', 'o', 'n', 'e', p.sp3, 'O', 'S', p.sp4];
    let s10 = s9 + p.os_version;
    let s11 = s10 + seq![')', p.sp5, '('];
    let s12 = s11 + p.display;
    let s13 = s12 + seq![')'];
    assert(s == s13);
    let t1 = p.t1();
    let t2 = p.t2();
    let t3 = p.t3();
    let t4 = p.t4();
    let t5 = p.t5();
    assert(s0.len() == 17);
    assert(s1.len() == t1);
    assert(s2.len() == t1 + 1);
    assert(s3.len() == t2);
    assert(s4.len() == t2 + 1);
    assert(s5.len() == t3);
    assert(s6.len() == t3 + 2);
    assert(s7.len() == t4);
    assert(s8.len() == t4 + 2);
    assert(s9.len() == t4 + 12);
    assert(s10.len() == t5);
    assert(s11.len() == t5 + 3);
    assert(s12.len() == s.len() - 1);
    assert forall|j: int| 0 <= j < 17 implies #[trigger] s[j] == spec_prefix()[j] by {
        assert(s[j] == s0[j]);
    }
    assert forall|j: int| 17 <= j < t1 implies digit(#[trigger] s[j]) by {
        assert(s[j] == p.major[j - 17]);
    }
    assert(s[t1] == '.');
    assert forall|j: int| t1 + 1 <= j < t2 implies dot_digit(#[trigger] s[j]) by {
        assert(s[j] == p.minor[j - (t1 + 1)]);
    }
    assert(s[t2] == 'b');
    assert forall|j: int| t2 + 1 <= j < t3 implies digit(#[trigger] s[j]) by {
        assert(s[j] == p.build[j - (t2 + 1)]);
    }
    assert(space_char(s[t3]));
    assert(s[t3 + 1] == '(');
    assert forall|j: int| t3 + 2 <= j < t4 implies word_char(#[trigger] s[j]) by {
        assert(s[j] == p.device[j - (t3 + 2)]);
    }
    assert(s[t4] == ';');
    assert(space_char(s[t4 + 1]));
    assert(s[t4 + 2] == 'i');
    assert(s[t4 + 3] == 'P');
    assert(s[t4 + 4] == 'h');
    assert(s[t4 + 5] == 'o');
    assert(s[t4 + 6] == 'n');
    assert(s[t4 + 7] == 'e');
    assert(space_char(s[t4 + 8]));
    assert(s[t4 + 9] == 'O');
    assert(s[t4 + 10] == 'S');
    assert(space_char(s[t4 + 11]));
    assert forall|j: int| t4 + 12 <= j < t5 implies dot_digit(#[trigger] s[j]) by {
        assert(s[j] == p.os_version[j - (t4 + 12)]);
    }
    assert(s[t5] == ')');
    assert(space_char(s[t5 + 1]));
    assert(s[t5 + 2] == '(');
    assert forall|j: int| t5 + 3 <= j < s.len() - 1 implies #[trigger] s[j] != '\n' by {
        assert(s[j] == p.display[j - (t5 + 3)]);
    }
    assert(s[s.len() - 1] == ')');
    assert(p.major =~= s.subrange(17, t1)) by {
        assert forall|j: int| 0 <= j < p.major.len() implies p.major[j] == s.subrange(17, t1)[j] by {
            assert(s[17 + j] == p.major[j]);
        }
    }
}

/// A string of the recognized shape splits into well-formed segments, with
/// the major version standing just after the prefix.
pub(crate) proof fn lemma_shape_parts(s: Seq<char>, t1: int, t2: int, t3: int, t4: int, t5: int) -> (p: UaParts)
    requires
        shape_at(s, t1, t2, t3, t4, t5),
    ensures
        p.wf(),
        s == p.assembled(),
        p.major == s.subrange(17, t1),
{
    let parts = UaParts {
        major: s.subrange(17, t1),
        minor: s.subrange(t1 + 1, t2),
        build: s.subrange(t2 + 1, t3),
        device: s.subrange(t3 + 2, t4),
        os_version: s.subrange(t4 + 12, t5),
        display: s.subrange(t5 + 3, s.len() - 1),
        sp1: s[t3],
        sp2: s[t4 + 1],
        sp3: s[t4 + 8],
        sp4: s[t4 + 11],
        sp5: s[t5 + 1],
    };
    assert(parts.wf());
    assert(parts.t1() == t1);
    assert(parts.t2() == t2);
    assert(parts.t3() == t3);
    assert(parts.t4() == t4);
    assert(parts.t5() == t5);
    let s0 = spec_prefix();
    let s1 = s0 + parts.major;
    let s2 = s1 + seq!['.'];
    let s3 = s2 + parts.minor;
    let s4 = s3 + seq!['b'];
    let s5 = s4 + parts.build;
    let s6 = s5 + seq![parts.sp1, '('];
    let s7 = s6 + parts.device;
    let s8 = s7 + seq![';', parts.sp2];
    let s9 = s8 + seq!['i', 'P', 'h', 'o', 'n', 'e', parts.sp3, 'O', 'S', parts.sp4];
    let s10 = s9 + parts.os_version;
    let s11 = s10 + seq![')', parts.sp5, '('];
    let s12 = s11 + parts.display;
    let b = s12 + seq![')'];
    assert(b == parts.assembled());
    assert(s0.len() == 17);
    assert(s1.len() == t1);
    assert(s2.len() == t1 + 1);
    assert(s3.len() == t2);
    assert(s4.len() == t2 + 1);
    assert(s5.len() == t3);
    assert(s6.len() == t3 + 2);
    assert(s7.len() == t4);
    assert(s8.len() == t4 + 2);
    assert(s9.len() == t4 + 12);
    assert(s10.len() == t5);
    assert(s11.len() == t5 + 3);
    assert(s12.len() == s.len() - 1);
    assert(b.len() == s.len());
    assert(s =~= b) by {
        assert forall|j: int| 0 <= j < s.len() implies s[j] == b[j] by {
            if j < 17 {
                assert(b[j] == s0[j]);
            } else if j < t1 {
                assert(b[j] == parts.major[j - 17]);
                assert(parts.major[j - 17] == s[j]);
            } else if j == t1 {
                assert(b[j] == '.');
            } else if j < t2 {
                assert(b[j] == parts.minor[j - (t1 + 1)]);
                assert(parts.minor[j - (t1 + 1)] == s[j]);
            } else if j == t2 {
                assert(b[j] == 'b');
            } else if j < t3 {
                assert(b[j] == parts.build[j - (t2 + 1)]);
                assert(parts.build[j - (t2 + 1)] == s[j]);
            } else if j == t3 {
                assert(b[j] == parts.sp1);
            } else if j == t3 + 1 {
                assert(b[j] == '(');
            } else if j < t4 {
                assert(b[j] == parts.device[j - (t3 + 2)]);
                assert(parts.device[j - (t3 + 2)] == s[j]);
            } else if j < t4 + 2 {
                assert(b[j] == s8[j]);
                if j == t4 {
                    assert(b[j] == ';');
                } else {
                    assert(b[j] == parts.sp2);
                }
            } else if j < t4 + 12 {
                assert(b[j] == s9[j]);
                let w = seq!['i', 'P', 'h', 'o', 'n', 'e', parts.sp3, 'O', 'S', parts.sp4];
                assert(b[j] == w[j - (t4 + 2)]);
                if j == t4 + 2 {
                    assert(w[0] == 'i');
                } else if j == t4 + 3 {
                    assert(w[1] == 'P');
                } else if j == t4 + 4 {
                    assert(w[2] == 'h');
                } else if j == t4 + 5 {
                    assert(w[3] == 'o');
                } else if j == t4 + 6 {
                    assert(w[4] == 'n');
                } else if j == t4 + 7 {
                    assert(w[5] == 'e');
                } else if j == t4 + 8 {
                    assert(w[6] == parts.sp3);
                } else if j == t4 + 9 {
                    assert(w[7] == 'O');
                } else if j == t4 + 10 {
                    assert(w[8] == 'S');
                } else {
                    assert(w[9] == parts.sp4);
                }
            } else if j < t5 {
                assert(b[j] == parts.os_version[j - (t4 + 12)]);
                assert(parts.os_version[j - (t4 + 12)] == s[j]);
            } else if j < t5 + 3 {
                let w = seq![')', parts.sp5, '('];
                assert(b[j] == w[j - t5]);
                if j == t5 {
                    assert(w[0] == ')');
                } else if j == t5 + 1 {
                    assert(w[1] == parts.sp5);
                } else {
                    assert(w[2] == '(');
                }
            } else if j < s.len() - 1 {
                assert(b[j] == parts.display[j - (t5 + 3)]);
                assert(parts.display[j - (t5 + 3)] == s[j]);
            } else {
                assert(b[j] == ')');
            }
        }
    }
    parts
}

/// A maximal run of digits starting at one position ends at one place only.
pub(crate) proof fn lemma_digit_run_unique(s: Seq<char>, i: int, k1: int, k2: int)
    requires
        i <= k1 <= s.len(),
        i <= k2 <= s.len(),
        forall|j: int| i <= j < k1 ==> digit(#[trigger] s[j]),
        k1 == s.len() || !digit(s[k1]),
        forall|j: int| i <= j < k2 ==> digit(#[trigger] s[j]),
        k2 == s.len() || !digit(s[k2]),
    ensures
        k1 == k2,
{
    if k1 < k2 {
        assert(digit(s[k1]));
    }
    if k2 < k1 {
        assert(digit(s[k2]));
    }
}

/// A maximal run of digits and dots starting at one position ends at one place only.
pub(crate) proof fn lemma_dot_digit_run_unique(s: Seq<char>, i: int, k1: int, k2: int)
    requires
        i <= k1 <= s.len(),
        i <= k2 <= s.len(),
        forall|j: int| i <= j < k1 ==> dot_digit(#[trigger] s[j]),
        k1 == s.len() || !dot_digit(s[k1]),
        forall|j: int| i <= j < k2 ==> dot_digit(#[trigger] s[j]),
        k2 == s.len() || !dot_digit(s[k2]),
    ensures
        k1 == k2,
{
    if k1 < k2 {
        assert(dot_digit(s[k1]));
    }
    if k2 < k1 {
        assert(dot_digit(s[k2]));
    }
}

/// A maximal run of word characters starting at one position ends at one place only.
pub(crate) proof fn lemma_word_run_unique(s: Seq<char>, i: int, k1: int, k2: int)
    requires
        i <= k1 <= s.len(),
        i <= k2 <= s.len(),
        forall|j: int| i <= j < k1 ==> word_char(#[trigger] s[j]),
        k1 == s.len() || !word_char(s[k1]),
        forall|j: int| i <= j < k2 ==> word_char(#[trigger] s[j]),
        k2 == s.len() || !word_char(s[k2]),
    ensures
        k1 == k2,
{
    if k1 < k2 {
        assert(word_char(s[k1]));
    }
    if k2 < k1 {
        assert(word_char(s[k2]));
    }
}

} // verus!
