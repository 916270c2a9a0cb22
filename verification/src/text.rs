use vstd::prelude::*;

verus! {

/// Whether a character is white space: the characters that separate the
/// fields of a line.
pub open spec fn is_space(c: char) -> bool {
    let n = c as u32;
    ||| 0x09 <= n <= 0x0D
    ||| n == 0x20
    ||| n == 0x85
    ||| n == 0xA0
    ||| n == 0x1680
    ||| 0x2000 <= n <= 0x200A
    ||| n == 0x2028
    ||| n == 0x2029
    ||| n == 0x202F
    ||| n == 0x205F
    ||| n == 0x3000
}

/// The first position at or after `from` that holds no white space, or the
/// length of the text where only white space is left.
pub open spec fn skip_spaces(s: Seq<char>, from: int) -> int
    decreases s.len() - from,
{
    if 0 <= from < s.len() && is_space(s[from]) {
        skip_spaces(s, from + 1)
    } else {
        from
    }
}

/// The first position at or after `from` that holds white space, or the
/// length of the text where none is left.
pub open spec fn skip_word(s: Seq<char>, from: int) -> int
    decreases s.len() - from,
{
    if 0 <= from < s.len() && !is_space(s[from]) {
        skip_word(s, from + 1)
    } else {
        from
    }
}

/// Where field `k` of the text begins. Fields are the maximal runs of
/// characters that are not white space, counted from 0; a field that the text
/// does not have begins at the length of the text.
pub open spec fn field_start(s: Seq<char>, k: nat) -> int
    decreases k,
{
    if k == 0 {
        skip_spaces(s, 0)
    } else {
        skip_spaces(s, skip_word(s, field_start(s, (k - 1) as nat)))
    }
}

/// Where field `k` of the text ends: one past its last character.
pub open spec fn field_end(s: Seq<char>, k: nat) -> int {
    skip_word(s, field_start(s, k))
}

/// Whether the text has a field `k`.
pub open spec fn has_field(s: Seq<char>, k: nat) -> bool {
    field_start(s, k) < s.len()
}

/// The characters of field `k` of the text.
pub open spec fn field(s: Seq<char>, k: nat) -> Seq<char> {
    s.subrange(field_start(s, k), field_end(s, k))
}

/// Whether `pattern` stands in `s` at position `i`.
pub open spec fn occurs_at(s: Seq<char>, pattern: Seq<char>, i: int) -> bool {
    0 <= i && i + pattern.len() <= s.len() && s.subrange(i, i + pattern.len()) == pattern
}

/// `skip_spaces` stops inside the text or at its end, passes white space only,
/// and stops on a character that is none.
pub proof fn lemma_skip_spaces(s: Seq<char>, from: int)
    requires
        0 <= from <= s.len(),
    ensures
        from <= skip_spaces(s, from) <= s.len(),
        forall|i: int| from <= i < skip_spaces(s, from) ==> is_space(#[trigger] s[i]),
        skip_spaces(s, from) < s.len() ==> !is_space(s[skip_spaces(s, from)]),
    decreases s.len() - from,
{
    if from < s.len() && is_space(s[from]) {
        lemma_skip_spaces(s, from + 1);
    }
}

/// `skip_word` stops inside the text or at its end, passes no white space,
/// and stops on white space.
pub proof fn lemma_skip_word(s: Seq<char>, from: int)
    requires
        0 <= from <= s.len(),
    ensures
        from <= skip_word(s, from) <= s.len(),
        forall|i: int| from <= i < skip_word(s, from) ==> !is_space(#[trigger] s[i]),
        skip_word(s, from) < s.len() ==> is_space(s[skip_word(s, from)]),
        from < s.len() && !is_space(s[from]) ==> from < skip_word(s, from),
    decreases s.len() - from,
{
    if from < s.len() && !is_space(s[from]) {
        lemma_skip_word(s, from + 1);
    }
}

/// Every field lies inside the text, and a field that the text has is not empty.
pub proof fn lemma_field_bounds(s: Seq<char>, k: nat)
    ensures
        0 <= field_start(s, k) <= field_end(s, k) <= s.len(),
        has_field(s, k) ==> field_start(s, k) < field_end(s, k),
        has_field(s, k) && k > 0 ==> has_field(s, (k - 1) as nat),
    decreases k,
{
    if k == 0 {
        lemma_skip_spaces(s, 0);
    } else {
        let j = (k - 1) as nat;
        lemma_field_bounds(s, j);
        lemma_skip_word(s, field_start(s, j));
        lemma_skip_spaces(s, field_end(s, j));
    }
    lemma_skip_spaces(s, 0);
    lemma_skip_word(s, field_start(s, k));
}

/// Returns `true` for white space.
pub fn is_whitespace(c: char) -> (r: bool)
    ensures
        r == is_space(c),
{
    let n: u32 = c as u32;
    (0x09 <= n && n <= 0x0D) || n == 0x20 || n == 0x85 || n == 0xA0 || n == 0x1680 || (0x2000 <= n
        && n <= 0x200A) || n == 0x2028 || n == 0x2029 || n == 0x202F || n == 0x205F || n == 0x3000
}

/// Returns the characters of `text`, in order.
pub fn chars_of(text: &str) -> (v: Vec<char>)
    ensures
        v@ == text@,
{
    let mut v: Vec<char> = Vec::new();
    for c in it: text.chars()
        invariant
            v@ == text@.take(it.index()),
            it.seq() == text@,
    {
        v.push(c);
    }
    v
}

/// Finds the next field at or after `from`: returns where it begins and where
/// it ends. Both are the length of the text where no field is left.
pub fn next_field(chars: &[char], from: usize) -> (r: (usize, usize))
    requires
        from <= chars@.len(),
    ensures
        r.0 == skip_spaces(chars@, from as int),
        r.1 == skip_word(chars@, r.0 as int),
        from <= r.0 <= r.1 <= chars@.len(),
{
    let mut start: usize = from;
    while start < chars.len() && is_whitespace(chars[start])
        invariant
            from <= start <= chars@.len(),
            skip_spaces(chars@, from as int) == skip_spaces(chars@, start as int),
        decreases chars@.len() - start,
    {
        start += 1;
    }
    let mut end: usize = start;
    while end < chars.len() && !is_whitespace(chars[end])
        invariant
            start <= end <= chars@.len(),
            skip_word(chars@, start as int) == skip_word(chars@, end as int),
        decreases chars@.len() - end,
    {
        end += 1;
    }
    (start, end)
}

/// Whether the characters of `chars` from `at` on begin with `pattern`.
pub fn matches_at(chars: &[char], pattern: &[char], at: usize) -> (r: bool)
    ensures
        r == occurs_at(chars@, pattern@, at as int),
{
    if pattern.len() > chars.len() || at > chars.len() - pattern.len() {
        return false;
    }
    let mut j: usize = 0;
    while j < pattern.len()
        invariant
            j <= pattern@.len(),
            at + pattern@.len() <= chars@.len() <= usize::MAX,
            chars@.subrange(at as int, at + j) == pattern@.take(j as int),
        decreases pattern@.len() - j,
    {
        if chars[at + j] != pattern[j] {
            proof {
                if occurs_at(chars@, pattern@, at as int) {
                    assert(chars@.subrange(at as int, at + pattern@.len())[j as int] == pattern@[j as int]);
                }
            }
            return false;
        }
        proof {
            assert(chars@.subrange(at as int, at + j + 1) =~= chars@.subrange(at as int, at + j).push(
                chars@[at + j],
            ));
            assert(pattern@.take(j + 1) =~= pattern@.take(j as int).push(pattern@[j as int]));
        }
        j += 1;
    }
    proof {
        assert(pattern@.take(j as int) =~= pattern@);
    }
    true
}

/// Finds the first place where `pattern` stands in `chars`.
pub fn find(chars: &[char], pattern: &[char]) -> (r: Option<usize>)
    ensures
        r matches Some(i) ==> occurs_at(chars@, pattern@, i as int) && forall|j: int|
            0 <= j < i ==> !occurs_at(chars@, pattern@, j),
        r is None ==> forall|j: int| !occurs_at(chars@, pattern@, j),
{
    if pattern.len() > chars.len() {
        return None;
    }
    let last: usize = chars.len() - pattern.len();
    let mut i: usize = 0;
    loop
        invariant
            last == chars@.len() - pattern@.len(),
            i <= last,
            forall|j: int| 0 <= j < i ==> !occurs_at(chars@, pattern@, j),
        decreases last - i,
    {
        if matches_at(chars, pattern, i) {
            return Some(i);
        }
        if i == last {
            return None;
        }
        i += 1;
    }
}

/// Finds the last place where the character `c` stands in `chars`.
pub fn rfind_char(chars: &[char], c: char) -> (r: Option<usize>)
    ensures
        r matches Some(i) ==> i < chars@.len() && chars@[i as int] == c && forall|j: int|
            i < j < chars@.len() ==> chars@[j] != c,
        r is None ==> forall|j: int| 0 <= j < chars@.len() ==> chars@[j] != c,
{
    let mut i: usize = chars.len();
    while i > 0
        invariant
            i <= chars@.len(),
            forall|j: int| i <= j < chars@.len() ==> chars@[j] != c,
        decreases i,
    {
        i -= 1;
        if chars[i] == c {
            return Some(i);
        }
    }
    None
}

/// Whether `chars` holds exactly the characters of `word`.
pub fn equals(chars: &[char], word: &[char]) -> (r: bool)
    ensures
        r == (chars@ == word@),
{
    if chars.len() != word.len() {
        return false;
    }
    let r = matches_at(chars, word, 0);
    proof {
        assert(chars@.subrange(0, chars@.len() as int) =~= chars@);
    }
    r
}

} // verus!
