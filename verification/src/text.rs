use vstd::prelude::*;
use vstd::slice::slice_subrange;
use vstd::string::StringExecFns;

verus! {

/// Whether `c` has the Unicode property White_Space.
pub open spec fn is_whitespace(c: char) -> bool {
    let n = c as u32;
    ||| 0x09 <= n <= 0x0D
    ||| n == 0x20
    ||| n == 0x85
    ||| n == 0xA0
    ||| n == 0x1680
    ||| 0x2000 <= n <= 0x200A
    ||| n == 0x2028
    ||| n == 0x2029
    ||| n == 0x202F
    ||| n == 0x205F
    ||| n == 0x3000
}

/// `s` without the whitespace it begins with.
pub open spec fn trimmed_start(s: Seq<char>) -> Seq<char>
    decreases s.len(),
{
    if s.len() > 0 && is_whitespace(s.first()) {
        trimmed_start(s.drop_first())
    } else {
        s
    }
}

/// `s` without the whitespace it ends with.
pub open spec fn trimmed_end(s: Seq<char>) -> Seq<char>
    decreases s.len(),
{
    if s.len() > 0 && is_whitespace(s.last()) {
        trimmed_end(s.drop_last())
    } else {
        s
    }
}

/// `s` without the whitespace around it.
pub open spec fn trimmed(s: Seq<char>) -> Seq<char> {
    trimmed_end(trimmed_start(s))
}

/// The first position in `s` that holds `a` or `b`.
pub open spec fn first_index(s: Seq<char>, a: char, b: char) -> Option<int>
    decreases s.len(),
{
    if s.len() == 0 {
        None
    } else if s.first() == a || s.first() == b {
        Some(0)
    } else {
        match first_index(s.drop_first(), a, b) {
            Some(i) => Some(i + 1),
            None => None,
        }
    }
}

/// Whether `c` is whitespace.
pub fn char_is_whitespace(c: char) -> (b: bool)
    ensures
        b == is_whitespace(c),
{
    let n: u32 = c as u32;
    (0x09 <= n && n <= 0x0D) || n == 0x20 || n == 0x85 || n == 0xA0 || n == 0x1680 || (0x2000 <= n
        && n <= 0x200A) || n == 0x2028 || n == 0x2029 || n == 0x202F || n == 0x205F || n == 0x3000
}

/// The characters of `source`, in order.
pub fn characters(source: &str) -> (chars: Vec<char>)
    ensures
        chars@ == source@,
{
    let mut chars: Vec<char> = Vec::new();
    for c in it: source.chars()
        invariant
            chars@ == it.seq().take(it.index() as int),
    {
        chars.push(c);
    }
    chars
}

/// The characters of `parts`, one part after the other with nothing
/// between them.
pub open spec fn concatenated(parts: Seq<String>) -> Seq<char>
    decreases parts.len(),
{
    if parts.len() == 0 {
        Seq::empty()
    } else {
        concatenated(parts.drop_last()) + parts.last()@
    }
}

/// Joins `parts` into one text, with nothing between them.
pub fn concatenate(parts: &Vec<String>) -> (joined: String)
    ensures
        joined@ == concatenated(parts@),
{
    let mut joined = String::new();
    let mut i: usize = 0;
    while i < parts.len()
        invariant
            i <= parts@.len(),
            joined@ == concatenated(parts@.take(i as int)),
        decreases parts@.len() - i,
    {
        assert(parts@.take(i + 1).drop_last() == parts@.take(i as int));
        joined.append(parts[i].as_str());
        i += 1;
    }
    assert(parts@.take(i as int) == parts@);
    joined
}

/// Whether `s` holds whitespace and nothing else.
pub open spec fn all_whitespace(s: Seq<char>) -> bool {
    forall|i: int| 0 <= i < s.len() ==> is_whitespace(#[trigger] s[i])
}

/// Whitespace in front of a text is trimmed away with the text's own.
pub proof fn lemma_trimmed_start_skips(before: Seq<char>, s: Seq<char>)
    requires
        all_whitespace(before),
    ensures
        trimmed_start(before + s) == trimmed_start(s),
    decreases before.len(),
{
    if before.len() > 0 {
        assert((before + s).drop_first() == before.drop_first() + s);
        lemma_trimmed_start_skips(before.drop_first(), s);
    }
}

/// Whitespace behind a text is trimmed away with the text's own.
pub proof fn lemma_trimmed_end_skips(s: Seq<char>, after: Seq<char>)
    requires
        all_whitespace(after),
    ensures
        trimmed_end(s + after) == trimmed_end(s),
    decreases after.len(),
{
    if after.len() > 0 {
        assert((s + after).drop_last() == s + after.drop_last());
        lemma_trimmed_end_skips(s, after.drop_last());
    }
}

/// Trimming the front of a text with whitespace behind it: the whitespace
/// stays behind what is left, unless the text is whitespace throughout.
pub proof fn lemma_trimmed_start_keeps(s: Seq<char>, after: Seq<char>)
    requires
        all_whitespace(after),
    ensures
        trimmed_start(s + after) == if all_whitespace(s) {
            Seq::<char>::empty()
        } else {
            trimmed_start(s) + after
        },
        all_whitespace(s) ==> trimmed_start(s).len() == 0,
    decreases s.len(),
{
    if s.len() == 0 {
        lemma_trimmed_start_skips(after, Seq::empty());
    } else if is_whitespace(s.first()) {
        assert((s + after).drop_first() == s.drop_first() + after);
        lemma_trimmed_start_keeps(s.drop_first(), after);
        if all_whitespace(s.drop_first()) {
            assert forall|i: int| 0 <= i < s.len() implies is_whitespace(#[trigger] s[i]) by {
                if i > 0 {
                    assert(s[i] == s.drop_first()[i - 1]);
                }
            }
        }
    }
}

/// Whitespace around a text is trimmed away with the text's own.
pub proof fn lemma_trimmed_ignores_padding(before: Seq<char>, s: Seq<char>, after: Seq<char>)
    requires
        all_whitespace(before),
        all_whitespace(after),
    ensures
        trimmed(before + s + after) == trimmed(s),
{
    assert(before + s + after == before + (s + after));
    lemma_trimmed_start_skips(before, s + after);
    lemma_trimmed_start_keeps(s, after);
    if !all_whitespace(s) {
        lemma_trimmed_end_skips(trimmed_start(s), after);
    }
}

/// Trimming drops characters and adds none.
pub proof fn lemma_trimmed_len(s: Seq<char>)
    ensures
        trimmed_start(s).len() <= s.len(),
        trimmed_end(s).len() <= s.len(),
        trimmed(s).len() <= s.len(),
    decreases s.len(),
{
    if s.len() > 0 {
        lemma_trimmed_len(s.drop_first());
        lemma_trimmed_len(s.drop_last());
    }
    lemma_trimmed_end_len(trimmed_start(s));
}

proof fn lemma_trimmed_end_len(s: Seq<char>)
    ensures
        trimmed_end(s).len() <= s.len(),
    decreases s.len(),
{
    if s.len() > 0 {
        lemma_trimmed_end_len(s.drop_last());
    }
}

/// `chars` without the whitespace around it.
pub fn trim(chars: &[char]) -> (inner: &[char])
    ensures
        inner@ == trimmed(chars@),
{
    let end: usize = chars.len();
    let mut lo: usize = 0;
    assert(chars@.subrange(0, end as int) == chars@);
    while lo < end && char_is_whitespace(chars[lo])
        invariant
            lo <= end == chars@.len(),
            trimmed_start(chars@) == trimmed_start(chars@.subrange(lo as int, end as int)),
        decreases end - lo,
    {
        proof {
            let rest = chars@.subrange(lo as int, end as int);
            assert(rest.drop_first() == chars@.subrange(lo + 1, end as int));
        }
        lo += 1;
    }
    let mut hi: usize = end;
    while lo < hi && char_is_whitespace(chars[hi - 1])
        invariant
            lo <= hi <= end == chars@.len(),
            trimmed(chars@) == trimmed_end(chars@.subrange(lo as int, hi as int)),
        decreases hi - lo,
    {
        proof {
            let rest = chars@.subrange(lo as int, hi as int);
            assert(rest.drop_last() == chars@.subrange(lo as int, hi - 1));
        }
        hi -= 1;
    }
    slice_subrange(chars, lo, hi)
}

/// What `first_index` finds is a match with none before it, and it finds
/// nothing only where there is no match.
pub proof fn lemma_first_index(s: Seq<char>, a: char, b: char)
    ensures
        match first_index(s, a, b) {
            Some(i) => {
                &&& 0 <= i < s.len()
                &&& (s[i] == a || s[i] == b)
                &&& forall|j: int| 0 <= j < i ==> s[j] != a && s[j] != b
            },
            None => forall|j: int| 0 <= j < s.len() ==> s[j] != a && s[j] != b,
        },
    decreases s.len(),
{
    if s.len() > 0 && !(s.first() == a || s.first() == b) {
        let rest = s.drop_first();
        lemma_first_index(rest, a, b);
        match first_index(rest, a, b) {
            Some(i) => {
                assert forall|j: int| 0 <= j < i + 1 implies s[j] != a && s[j] != b by {
                    if j > 0 {
                        assert(s[j] == rest[j - 1]);
                    }
                }
            },
            None => {
                assert forall|j: int| 0 <= j < s.len() implies s[j] != a && s[j] != b by {
                    if j > 0 {
                        assert(s[j] == rest[j - 1]);
                    }
                }
            },
        }
    }
}

/// The first position in `chars` that holds `a` or `b`.
pub fn find(chars: &[char], a: char, b: char) -> (found: Option<usize>)
    ensures
        first_index(chars@, a, b) == match found {
            Some(i) => Some(i as int),
            None => None,
        },
{
    let mut i: usize = 0;
    while i < chars.len()
        invariant
            i <= chars@.len(),
            forall|j: int| 0 <= j < i ==> chars@[j] != a && chars@[j] != b,
        decreases chars@.len() - i,
    {
        if chars[i] == a || chars[i] == b {
            proof {
                lemma_first_index(chars@, a, b);
            }
            return Some(i);
        }
        i += 1;
    }
    proof {
        lemma_first_index(chars@, a, b);
    }
    None
}

} // verus!
