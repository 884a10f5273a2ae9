use vstd::prelude::*;

verus! {

/// Number of bytes that `c` takes in UTF-8.
pub open spec fn utf8_width(c: char) -> int {
    if (c as u32) < 0x80 {
        1
    } else if (c as u32) < 0x800 {
        2
    } else if (c as u32) < 0x10000 {
        3
    } else {
        4
    }
}

/// Byte offset in the UTF-8 form of `s` at which character `k` starts.
pub open spec fn byte_offset(s: Seq<char>, k: int) -> int
    decreases k,
{
    if k <= 0 {
        0
    } else {
        byte_offset(s, k - 1) + utf8_width(s[k - 1])
    }
}

/// Comparing `s` against `t` from character `k` on, where character `j` of `s`
/// is held against `t` at its byte offset: whether the comparison reads past the
/// end of `t` (first), and otherwise whether every character matched (second).
pub open spec fn match_from(s: Seq<char>, t: Seq<char>, k: int) -> (bool, bool)
    decreases s.len() - k,
{
    if k >= s.len() || k < 0 {
        (false, true)
    } else if byte_offset(s, k) >= t.len() {
        (true, false)
    } else if s[k] != t[byte_offset(s, k)] {
        (false, false)
    } else {
        match_from(s, t, k + 1)
    }
}

/// The UTF-8 width of `c`.
fn char_width(c: char) -> (r: usize)
    ensures
        r == utf8_width(c),
{
    let v = c as u32;
    if v < 0x80 {
        1
    } else if v < 0x800 {
        2
    } else if v < 0x10000 {
        3
    } else {
        4
    }
}

proof fn lemma_byte_offset_monotone(s: Seq<char>, j: int, k: int)
    requires
        0 <= j <= k,
    ensures
        byte_offset(s, j) <= byte_offset(s, k),
    decreases k - j,
{
    if j < k {
        lemma_byte_offset_monotone(s, j, k - 1);
    }
}

/// Every character `j` of `s` from `k` on lies inside `t` at its byte offset
/// and equals the element there.
pub open spec fn equal_at_offsets(s: Seq<char>, t: Seq<char>, k: int) -> bool {
    forall|j: int| k <= j < s.len() ==> #[trigger] byte_offset(s, j) < t.len() && s[j] == t[byte_offset(s, j)]
}

proof fn lemma_match_from_true(s: Seq<char>, t: Seq<char>, k: int)
    requires
        0 <= k,
        match_from(s, t, k).1,
    ensures
        equal_at_offsets(s, t, k),
    decreases s.len() - k,
{
    if k < s.len() {
        lemma_match_from_true(s, t, k + 1);
        assert forall|j: int| k <= j < s.len() implies #[trigger] byte_offset(s, j) < t.len() && s[j]
            == t[byte_offset(s, j)] by {
            if j > k {
                let o = byte_offset(s, j);
                assert(k + 1 <= j < s.len());
            }
        }
    }
}

proof fn lemma_equal_match_from(s: Seq<char>, t: Seq<char>, k: int)
    requires
        0 <= k,
        equal_at_offsets(s, t, k),
    ensures
        match_from(s, t, k) == (false, true),
    decreases s.len() - k,
{
    if k < s.len() {
        let o0 = byte_offset(s, k);
        assert(byte_offset(s, k) < t.len());
        assert(s[k] == t[byte_offset(s, k)]);
        assert forall|j: int| k + 1 <= j < s.len() implies #[trigger] byte_offset(s, j) < t.len() && s[j]
            == t[byte_offset(s, j)] by {
            let o = byte_offset(s, j);
            assert(k <= j < s.len());
        }
        lemma_equal_match_from(s, t, k + 1);
    }
}

/// `strcmp` accepts exactly when each character of `chars` equals the element
/// of `target` at that character's byte offset in `chars` (`equal_at_offsets`):
/// a mismatch at any character gives `false`, and where all match the
/// comparison never reads past `target`.
pub proof fn lemma_match_true_iff_all_equal(chars: Seq<char>, target: Seq<char>)
    ensures
        match_from(chars, target, 0).1 ==> equal_at_offsets(chars, target, 0),
        equal_at_offsets(chars, target, 0) ==> match_from(chars, target, 0) == (false, true),
{
    if match_from(chars, target, 0).1 {
        lemma_match_from_true(chars, target, 0);
    }
    if equal_at_offsets(chars, target, 0) {
        lemma_equal_match_from(chars, target, 0);
    }
}

/// For characters below 0x80 (one byte each) the byte offset of character `k`
/// is `k`.
pub proof fn lemma_ascii_offset(s: Seq<char>, k: int)
    requires
        0 <= k <= s.len(),
        forall|j: int| 0 <= j < k ==> (#[trigger] s[j] as u32) < 0x80,
    ensures
        byte_offset(s, k) == k,
    decreases k,
{
    if k > 0 {
        lemma_ascii_offset(s, k - 1);
    }
}

/// Whether every character of `chars` equals the element of `target` at the
/// character's byte offset in `chars`.
pub fn strcmp(chars: &str, target: &[char]) -> (r: bool)
    requires
        !match_from(chars@, target@, 0).0,
    ensures
        r == match_from(chars@, target@, 0).1,
{
    matches_at_offsets(chars, target)
}

fn matches_at_offsets(chars: &str, target: &[char]) -> (r: bool)
    requires
        !match_from(chars@, target@, 0).0,
    ensures
        r == match_from(chars@, target@, 0).1,
{
    let mut off: usize = 0;
    for c in it: chars.chars()
        invariant
            it.seq() == chars@,
            !match_from(chars@, target@, 0).0,
            match_from(chars@, target@, it.index() as int) == match_from(chars@, target@, 0),
            byte_offset(chars@, it.index() as int) <= usize::MAX ==> off == byte_offset(
                chars@,
                it.index() as int,
            ),
            byte_offset(chars@, it.index() as int) > usize::MAX ==> off == usize::MAX,
    {
        if off >= target.len() {
            assert(match_from(chars@, target@, it.index() as int).0);
        }
        if c != target[off] {
            return false;
        }
        let w = char_width(c);
        off = off.saturating_add(w);
    }
    true
}

/// Comparing two NUL-terminated strings from index `i` on: whether the scan stays
/// inside both slices (first), and whether `s1` reaches its NUL with every
/// character equal to that of `s2` (second).
pub open spec fn cstr_match_from(s1: Seq<char>, s2: Seq<char>, i: int) -> (bool, bool)
    decreases s1.len() - i,
{
    if i < 0 || i >= s1.len() || i >= s2.len() {
        (false, false)
    } else if s1[i] == '\0' {
        (true, true)
    } else if s1[i] != s2[i] {
        (true, false)
    } else {
        cstr_match_from(s1, s2, i + 1)
    }
}

/// Whether `s1` holds no NUL from index `i` up to and including `j`.
pub open spec fn no_nul_between(s1: Seq<char>, i: int, j: int) -> bool {
    forall|l: int| i <= l <= j ==> #[trigger] s1[l] != '\0'
}

/// Every character of `s1` from `i` on, up to its first NUL, equals the one of
/// `s2` at the same index.
pub open spec fn equal_before_nul(s1: Seq<char>, s2: Seq<char>, i: int) -> bool {
    forall|j: int| i <= j < s1.len() && #[trigger] no_nul_between(s1, i, j) ==> j < s2.len() && s1[j] == s2[j]
}

proof fn lemma_cstr_match_true(s1: Seq<char>, s2: Seq<char>, i: int)
    requires
        0 <= i,
        cstr_match_from(s1, s2, i).1,
    ensures
        equal_before_nul(s1, s2, i),
    decreases s1.len() - i,
{
    if s1[i] == '\0' {
        assert forall|j: int| i <= j < s1.len() && #[trigger] no_nul_between(s1, i, j) implies j < s2.len() && s1[j]
            == s2[j] by {
            assert(s1[i] != '\0');
        }
    } else {
        lemma_cstr_match_true(s1, s2, i + 1);
        assert forall|j: int| i <= j < s1.len() && #[trigger] no_nul_between(s1, i, j) implies j < s2.len()
            && s1[j] == s2[j] by {
            if j > i {
                assert forall|l: int| i + 1 <= l <= j implies #[trigger] s1[l] != '\0' by {
                    assert(i <= l <= j);
                }
                assert(no_nul_between(s1, i + 1, j));
            }
        }
    }
}

proof fn lemma_cstr_mismatch(s1: Seq<char>, s2: Seq<char>, i: int)
    requires
        0 <= i,
        cstr_match_from(s1, s2, i).0,
        !cstr_match_from(s1, s2, i).1,
    ensures
        !equal_before_nul(s1, s2, i),
    decreases s1.len() - i,
{
    if s1[i] != s2[i] {
        assert(no_nul_between(s1, i, i));
        assert(!(i < s2.len() && s1[i] == s2[i]));
    } else {
        lemma_cstr_mismatch(s1, s2, i + 1);
        let j = choose|j: int|
            i + 1 <= j < s1.len() && #[trigger] no_nul_between(s1, i + 1, j) && !(j < s2.len() && s1[j] == s2[j]);
        assert forall|l: int| i <= l <= j implies #[trigger] s1[l] != '\0' by {
            if l > i {
                assert(i + 1 <= l <= j);
            }
        }
        assert(no_nul_between(s1, i, j));
        assert(!(j < s2.len() && s1[j] == s2[j]));
    }
}

/// `strcmp2` accepts only if `s1[j] == s2[j]` for every `j` before the first
/// NUL of `s1` (`equal_before_nul`), and, where its scan stays inside both
/// slices, accepts whenever they do: a difference anywhere before that NUL gives
/// `false`, whatever `s2` holds.
pub proof fn lemma_cstr_true_iff_equal_to_nul(s1: Seq<char>, s2: Seq<char>)
    ensures
        cstr_match_from(s1, s2, 0).1 ==> equal_before_nul(s1, s2, 0),
        cstr_match_from(s1, s2, 0).0 && equal_before_nul(s1, s2, 0) ==> cstr_match_from(s1, s2, 0).1,
{
    if cstr_match_from(s1, s2, 0).1 {
        lemma_cstr_match_true(s1, s2, 0);
    }
    if cstr_match_from(s1, s2, 0).0 && !cstr_match_from(s1, s2, 0).1 {
        lemma_cstr_mismatch(s1, s2, 0);
    }
}

/// Compares the NUL-terminated string in `s1` with `s2`, character by
/// character, up to the NUL of `s1`: `true` where they agree up to it.
pub fn strcmp2(s1: &[char], s2: &[char]) -> (r: bool)
    requires
        cstr_match_from(s1@, s2@, 0).0,
    ensures
        r == cstr_match_from(s1@, s2@, 0).1,
{
    equal_up_to_nul(s1, s2)
}

fn equal_up_to_nul(s1: &[char], s2: &[char]) -> (r: bool)
    requires
        cstr_match_from(s1@, s2@, 0).0,
    ensures
        r == cstr_match_from(s1@, s2@, 0).1,
{
    let mut i: usize = 0;
    loop
        invariant
            cstr_match_from(s1@, s2@, i as int) == cstr_match_from(s1@, s2@, 0),
            cstr_match_from(s1@, s2@, 0).0,
        ensures
            cstr_match_from(s1@, s2@, 0).1,
        decreases s1.len() - i,
    {
        let c1 = s1[i];
        let c2 = s2[i];
        if c1 == '\0' {
            break;
        }
        if c1 != c2 {
            return false;
        }
        i = i + 1;
    }
    true
}

/// Characters that one input line can hold.
pub const INPUT_MAX: usize = 256;

/// A line ends the shell exactly when its first four characters are `exit`:
/// each character of the word is one byte, so it is held against the line
/// character by character.
pub proof fn lemma_exit_command_iff_prefix(typed: Seq<char>)
    requires
        !match_from(exit_word(), typed, 0).0,
    ensures
        match_from(exit_word(), typed, 0).1 <==> (typed.len() >= 4 && typed.take(4) == exit_word()),
{
    let w = exit_word();
    assert forall|j: int| 0 <= j < 4 implies (#[trigger] w[j] as u32) < 0x80 by {}
    lemma_ascii_offset(w, 0);
    lemma_ascii_offset(w, 1);
    lemma_ascii_offset(w, 2);
    lemma_ascii_offset(w, 3);
    lemma_match_true_iff_all_equal(w, typed);
    if match_from(w, typed, 0).1 {
        let o0 = byte_offset(w, 0);
        let o1 = byte_offset(w, 1);
        let o2 = byte_offset(w, 2);
        let o3 = byte_offset(w, 3);
        assert(typed.take(4) =~= w);
    }
    if typed.len() >= 4 && typed.take(4) == w {
        assert(typed.take(4)[0] == typed[0] && typed.take(4)[1] == typed[1]);
        assert(typed.take(4)[2] == typed[2] && typed.take(4)[3] == typed[3]);
        assert forall|j: int| 0 <= j < w.len() implies #[trigger] byte_offset(w, j) < typed.len() && w[j]
            == typed[byte_offset(w, j)] by {
            lemma_ascii_offset(w, j);
        }
    }
}

/// The line that the shell is reading: `input[..idx]` holds it so far.
pub struct ShellLine {
    pub input: [char; 256],
    pub idx: usize,
}

/// What the shell does with a line.
#[derive(Clone, Copy, PartialEq, Eq, Debug, Structural)]
pub enum ShellCommand {
    Exit,
    Unknown,
}

/// The command name that ends the shell.
pub open spec fn exit_word() -> Seq<char> {
    seq!['e', 'x', 'i', 't']
}

impl ShellLine {
    /// The characters typed so far.
    pub open spec fn typed(&self) -> Seq<char> {
        self.input@.subrange(0, self.idx as int)
    }

    /// An empty line.
    pub fn new() -> (r: ShellLine)
        ensures
            r.idx == 0,
            forall|i: int| 0 <= i < INPUT_MAX ==> r.input@[i] == '\0',
    {
        ShellLine { input: ['\0'; 256], idx: 0 }
    }

    /// Takes the typed character `ch`: a carriage return ends the line (`true`);
    /// any other character is appended (`false`).
    pub fn push(&mut self, ch: char) -> (r: bool)
        requires
            ch == '\r' || old(self).idx < INPUT_MAX,
        ensures
            r == (ch == '\r'),
            r ==> *final(self) == *old(self),
            !r ==> final(self).idx == old(self).idx + 1 && final(self).input@ == old(
                self,
            ).input@.update(old(self).idx as int, ch),
    {
        if ch == '\r' {
            return true;
        }
        self.input[self.idx] = ch;
        self.idx = self.idx + 1;
        false
    }

    /// The command of the finished line: `Exit` where the word `exit`, held
    /// against the line, matches it.
    pub fn command(&self) -> (r: ShellCommand)
        requires
            self.idx <= INPUT_MAX,
            !match_from(exit_word(), self.typed(), 0).0,
        ensures
            r == (if match_from(exit_word(), self.typed(), 0).1 {
                ShellCommand::Exit
            } else {
                ShellCommand::Unknown
            }),
    {
        let line = self.input.as_slice();
        let typed = slice_prefix(line, self.idx);
        let word = "exit";
        proof {
            reveal_strlit("exit");
        }
        assert(word@ == exit_word());
        if strcmp(word, typed) {
            ShellCommand::Exit
        } else {
            ShellCommand::Unknown
        }
    }
}

/// The first `n` elements of `s`.
fn slice_prefix(s: &[char], n: usize) -> (r: &[char])
    requires
        n <= s@.len(),
    ensures
        r@ == s@.take(n as int),
{
    &s[0..n]
}

} // verus!
