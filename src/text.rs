use vstd::prelude::*;
use vstd::string::*;

verus! {

broadcast use {vstd::std_specs::vec::group_vec_axioms, vstd::seq::group_seq_axioms};

/// Classes of characters that the grammar skips or collects in runs.
#[derive(Clone, Copy)]
pub enum CharClass {
    /// ASCII letters and digits.
    Alnum,
    /// ASCII digits.
    Digit,
    /// The space character.
    Space,
    /// Spaces and tabs.
    Blank,
    /// Line feeds.
    Newline,
    /// Line feeds and spaces.
    NewlineOrSpace,
    /// The characters of a string literal: ASCII letters, digits and spaces.
    TextChar,
    /// Characters with the Unicode `White_Space` property.
    WhiteSpace,
}

pub open spec fn is_alnum(c: char) -> bool {
    ('a' <= c && c <= 'z') || ('A' <= c && c <= 'Z') || ('0' <= c && c <= '9')
}

pub open spec fn is_digit(c: char) -> bool {
    '0' <= c && c <= '9'
}

pub open spec fn is_white_space(c: char) -> bool {
    ('\t' <= c && c <= '\r') || c == ' ' || c == '\u{85}' || c == '\u{a0}' || c == '\u{1680}' || (
    '\u{2000}' <= c && c <= '\u{200a}') || c == '\u{2028}' || c == '\u{2029}' || c == '\u{202f}'
        || c == '\u{205f}' || c == '\u{3000}'
}

pub open spec fn in_class(c: char, k: CharClass) -> bool {
    match k {
        CharClass::Alnum => is_alnum(c),
        CharClass::Digit => is_digit(c),
        CharClass::Space => c == ' ',
        CharClass::Blank => c == ' ' || c == '\t',
        CharClass::Newline => c == '\n',
        CharClass::NewlineOrSpace => c == '\n' || c == ' ',
        CharClass::TextChar => is_alnum(c) || c == ' ',
        CharClass::WhiteSpace => is_white_space(c),
    }
}

pub fn char_in_class(c: char, k: CharClass) -> (r: bool)
    ensures
        r == in_class(c, k),
{
    match k {
        CharClass::Alnum => ('a' <= c && c <= 'z') || ('A' <= c && c <= 'Z') || ('0' <= c && c
            <= '9'),
        CharClass::Digit => '0' <= c && c <= '9',
        CharClass::Space => c == ' ',
        CharClass::Blank => c == ' ' || c == '\t',
        CharClass::Newline => c == '\n',
        CharClass::NewlineOrSpace => c == '\n' || c == ' ',
        CharClass::TextChar => ('a' <= c && c <= 'z') || ('A' <= c && c <= 'Z') || ('0' <= c
            && c <= '9') || c == ' ',
        CharClass::WhiteSpace => ('\t' <= c && c <= '\r') || c == ' ' || c == '\u{85}' || c
            == '\u{a0}' || c == '\u{1680}' || ('\u{2000}' <= c && c <= '\u{200a}') || c
            == '\u{2028}' || c == '\u{2029}' || c == '\u{202f}' || c == '\u{205f}' || c
            == '\u{3000}',
    }
}

/// How many characters of class `k` stand in a row from position `p`.
pub open spec fn run_len(s: Seq<char>, p: int, k: CharClass) -> nat
    decreases s.len() - p,
{
    if 0 <= p < s.len() && in_class(s[p], k) {
        1 + run_len(s, p + 1, k)
    } else {
        0
    }
}

pub proof fn lemma_run_len_bound(s: Seq<char>, p: int, k: CharClass)
    requires
        0 <= p <= s.len(),
    ensures
        p + run_len(s, p, k) <= s.len(),
        forall|i: int| p <= i < p + run_len(s, p, k) ==> in_class(#[trigger] s[i], k),
    decreases s.len() - p,
{
    if p < s.len() && in_class(s[p], k) {
        lemma_run_len_bound(s, p + 1, k);
    }
}

/// Whether `s` holds the character `c` at position `p`.
pub open spec fn char_at(s: Seq<char>, p: int, c: char) -> bool {
    0 <= p < s.len() && s[p] == c
}

/// Whether `s` holds the text `t` from position `p` on.
pub open spec fn lit_at(s: Seq<char>, p: int, t: Seq<char>) -> bool {
    0 <= p && p + t.len() <= s.len() && s.subrange(p, p + t.len()) == t
}

/// Input text, together with its characters for indexed access.
pub struct Source<'a> {
    text: &'a str,
    chars: Vec<char>,
}

impl<'a> Source<'a> {
    pub closed spec fn view(&self) -> Seq<char> {
        self.chars@
    }

    pub closed spec fn wf(&self) -> bool {
        self.chars@ == self.text@
    }

    pub broadcast proof fn lemma_len_fits(&self)
        ensures
            #[trigger] self.view().len() <= usize::MAX,
    {
        assert(self.chars@.len() == self.chars.len());
    }

    pub fn new(text: &'a str) -> (r: Source<'a>)
        ensures
            r.wf(),
            r.view() == text@,
    {
        let n = text.unicode_len();
        let mut chars: Vec<char> = Vec::new();
        let mut i: usize = 0;
        while i < n
            invariant
                0 <= i <= n,
                n == text@.len(),
                chars@ == text@.subrange(0, i as int),
            decreases n - i,
        {
            chars.push(text.get_char(i));
            i += 1;
            assert(chars@ =~= text@.subrange(0, i as int));
        }
        assert(text@.subrange(0, n as int) =~= text@);
        Source { text, chars }
    }

    pub fn len(&self) -> (r: usize)
        ensures
            r == self.view().len(),
    {
        self.chars.len()
    }

    /// The character at position `i`.
    pub fn get(&self, i: usize) -> (c: char)
        requires
            i < self.view().len(),
        ensures
            c == self.view()[i as int],
    {
        self.chars[i]
    }

    /// Whether the character at `p` is `c`.
    pub fn char_is(&self, p: usize, c: char) -> (r: bool)
        ensures
            r == char_at(self.view(), p as int, c),
    {
        p < self.chars.len() && self.chars[p] == c
    }

    /// The position after the run of class `k` that starts at `p`.
    pub fn skip(&self, p: usize, k: CharClass) -> (r: usize)
        requires
            p <= self.view().len(),
        ensures
            r == p + run_len(self.view(), p as int, k),
            r <= self.view().len(),
    {
        let ghost s = self.view();
        let mut i: usize = p;
        proof {
            lemma_run_len_bound(s, p as int, k);
        }
        while i < self.chars.len() && char_in_class(self.chars[i], k)
            invariant
                p <= i <= s.len(),
                s == self.chars@,
                p + run_len(s, p as int, k) == i + run_len(s, i as int, k),
            decreases s.len() - i,
        {
            i += 1;
        }
        i
    }

    /// Whether the text `t` stands at position `p`.
    pub fn text_at(&self, p: usize, t: &str) -> (r: bool)
        ensures
            r == lit_at(self.view(), p as int, t@),
    {
        let n = t.unicode_len();
        if p > self.chars.len() || n > self.chars.len() - p {
            return false;
        }
        let ghost s = self.view();
        let mut i: usize = 0;
        while i < n
            invariant
                0 <= i <= n,
                n == t@.len(),
                s == self.chars@,
                p + n <= self.chars.len(),
                s.subrange(p as int, p + i) == t@.subrange(0, i as int),
            decreases n - i,
        {
            if self.chars[p + i] != t.get_char(i) {
                assert(s.subrange(p as int, p + n)[i as int] != t@[i as int]);
                return false;
            }
            assert(s.subrange(p as int, p + i + 1) =~= t@.subrange(0, i + 1));
            i += 1;
        }
        assert(t@.subrange(0, n as int) =~= t@);
        true
    }

    /// The text between positions `a` and `b`.
    pub fn between(&self, a: usize, b: usize) -> (r: String)
        requires
            self.wf(),
            a <= b <= self.view().len(),
        ensures
            r@ == self.view().subrange(a as int, b as int),
    {
        self.text.substring_char(a, b).to_owned()
    }
}

} // verus!
