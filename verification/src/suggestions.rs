//! Completion of block patterns: which part of the typed text is the block
//! name being written, and which block names complete it.

use vstd::prelude::*;
use crate::text::{
    byte_len,
    char_utf8_len,
    chars_of,
    has_prefix,
    starts_with_chars,
    utf8_len,
};

verus! {

/// At most this many names are offered.
pub const MAX_SUGGESTIONS: usize = 100;

/// Suggestions for the text from byte `start` on, `length` bytes long.
pub struct Suggestions {
    pub start: u32,
    pub length: u32,
    pub values: Vec<String>,
}

/// The index of the last character among `s[lo..n]` that is `a` or `b`, or
/// -1 when there is none.
pub open spec fn last_of(s: Seq<char>, lo: int, n: int, a: char, b: char) -> int
    decreases n - lo,
{
    if n <= lo {
        -1
    } else if s[n - 1] == a || s[n - 1] == b {
        n - 1
    } else {
        last_of(s, lo, n - 1, a, b)
    }
}

/// The character index at which byte `b` of `s` starts, when a character
/// starts there (the end of `s` counts).
pub open spec fn char_index_of_byte(s: Seq<char>, b: int) -> Option<int>
    decreases s.len(),
{
    if b == 0 {
        Some(0)
    } else if s.len() == 0 || b < 0 {
        None
    } else {
        match char_index_of_byte(s.drop_first(), b - utf8_len(s[0])) {
            Some(t) => Some(t + 1),
            None => None,
        }
    }
}

/// The names that start with `prefix`, in order.
pub open spec fn prefix_matches(names: Seq<Seq<char>>, prefix: Seq<char>) -> Seq<Seq<char>>
    decreases names.len(),
{
    if names.len() == 0 {
        Seq::<Seq<char>>::empty()
    } else {
        let prev = prefix_matches(names.drop_last(), prefix);
        if has_prefix(names.last(), prefix) {
            prev.push(names.last())
        } else {
            prev
        }
    }
}

/// The first `MAX_SUGGESTIONS` of the matches.
pub open spec fn first_matches(names: Seq<Seq<char>>, prefix: Seq<char>) -> Seq<Seq<char>> {
    let m = prefix_matches(names, prefix);
    if m.len() > 100 {
        m.take(100)
    } else {
        m
    }
}

/// Where the block name being typed starts, as a character index: after the
/// last space or comma (or at the argument's start, `start_char`, when there
/// is none), and after a `%` weight that follows.
pub open spec fn block_start_char(s: Seq<char>, start_char: int) -> int {
    let sep = last_of(s, 0, s.len() as int, ' ', ',');
    let token = if sep >= 0 {
        sep + 1
    } else {
        start_char
    };
    let pct = last_of(s, token, s.len() as int, '%', '%');
    if pct >= 0 {
        pct + 1
    } else {
        token
    }
}

/// Whether the suggestions can be computed: without a space or comma in the
/// input, the argument's start must be a character boundary of it.
pub open spec fn suggestible(input: Seq<char>, start: u32) -> bool {
    last_of(input, 0, input.len() as int, ' ', ',') < 0 ==> char_index_of_byte(
        input,
        start as int,
    ) is Some
}

/// What is offered for `input`, whose argument starts at byte `start`:
/// the names completing the block name being typed (a `minecraft:` prefix
/// is left out of both), and the byte range they replace.
pub open spec fn spec_suggest(input: Seq<char>, start: u32, names: Seq<Seq<char>>) -> (
    u32,
    u32,
    Seq<Seq<char>>,
) {
    let start_char = match char_index_of_byte(input, start as int) {
        Some(t) => t,
        None => 0,
    };
    let b = block_start_char(input, start_char);
    let raw = input.subrange(b, input.len() as int);
    let namespaced = has_prefix(raw, "minecraft:"@);
    let prefix = if namespaced {
        raw.subrange(10, raw.len() as int)
    } else {
        raw
    };
    let r = if namespaced {
        b + 10
    } else {
        b
    };
    (
        byte_len(input.take(r)) as u32,
        (byte_len(input) - byte_len(input.take(r))) as u32,
        first_matches(names, prefix),
    )
}

proof fn lemma_last_of_range(s: Seq<char>, lo: int, n: int, a: char, b: char)
    ensures
        last_of(s, lo, n, a, b) == -1 || lo <= last_of(s, lo, n, a, b) < n,
    decreases n - lo,
{
    if n > lo {
        lemma_last_of_range(s, lo, n - 1, a, b);
    }
}

fn last_of_exec(s: &[char], lo: usize, a: char, b: char) -> (r: Option<usize>)
    requires
        lo <= s@.len(),
    ensures
        match r {
            Some(i) => i == last_of(s@, lo as int, s@.len() as int, a, b) && lo <= i < s@.len(),
            None => last_of(s@, lo as int, s@.len() as int, a, b) == -1,
        },
{
    let mut n: usize = s.len();
    while n > lo
        invariant
            lo <= n <= s@.len(),
            last_of(s@, lo as int, s@.len() as int, a, b) == last_of(s@, lo as int, n as int, a, b),
        decreases n,
    {
        if s[n - 1] == a || s[n - 1] == b {
            return Some(n - 1);
        }
        n -= 1;
    }
    None
}

fn char_index_of_byte_exec(s: &[char], b: u32) -> (r: Option<usize>)
    ensures
        match char_index_of_byte(s@, b as int) {
            Some(t) => r == Some(t as usize),
            None => r is None,
        },
{
    let mut k: usize = 0;
    let mut left: u64 = b as u64;
    assert(s@.subrange(0, s@.len() as int) =~= s@);
    while left > 0 && k < s.len()
        invariant
            k <= s@.len(),
            left <= b,
            char_index_of_byte(s@, b as int) == match char_index_of_byte(
                s@.subrange(k as int, s@.len() as int),
                left as int,
            ) {
                Some(t) => Some(t + k),
                None => None::<int>,
            },
        decreases s@.len() - k,
    {
        let n = char_utf8_len(s[k]) as u64;
        assert(s@.subrange(k as int, s@.len() as int).drop_first() =~= s@.subrange(
            k + 1,
            s@.len() as int,
        ));
        if n > left {
            assert(char_index_of_byte(s@.subrange(k + 1, s@.len() as int), left - n) is None);
            return None;
        }
        left = left - n;
        k += 1;
    }
    if left == 0 {
        Some(k)
    } else {
        assert(s@.subrange(k as int, s@.len() as int).len() == 0);
        None
    }
}

fn byte_len_exec(s: &[char], n: usize) -> (r: u128)
    requires
        n <= s@.len(),
    ensures
        r == byte_len(s@.take(n as int)),
{
    let mut total: u128 = 0;
    let mut i: usize = 0;
    while i < n
        invariant
            i <= n <= s@.len(),
            total == byte_len(s@.take(i as int)),
            total <= 4 * i,
        decreases n - i,
    {
        assert(s@.take(i + 1).drop_last() =~= s@.take(i as int));
        total = total + char_utf8_len(s[i]) as u128;
        i += 1;
    }
    total
}

proof fn lemma_matches_prefix_stable(names: Seq<Seq<char>>, prefix: Seq<char>, i: int, m: int)
    requires
        0 <= i <= m <= names.len(),
    ensures
        prefix_matches(names.take(m), prefix).len() >= prefix_matches(names.take(i), prefix).len(),
        prefix_matches(names.take(m), prefix).take(
            prefix_matches(names.take(i), prefix).len() as int,
        ) == prefix_matches(names.take(i), prefix),
    decreases m - i,
{
    if i < m {
        lemma_matches_prefix_stable(names, prefix, i, m - 1);
        assert(names.take(m).drop_last() =~= names.take(m - 1));
        let a = prefix_matches(names.take(m - 1), prefix);
        let k = prefix_matches(names.take(i), prefix).len() as int;
        assert(a.push(names.take(m).last()).take(k) =~= a.take(k));
    } else {
        let a = prefix_matches(names.take(m), prefix);
        assert(a.take(a.len() as int) =~= a);
    }
}

/// Suggests block names for the block name being typed in `input`, whose
/// argument starts at byte `start`.
pub fn pattern_suggestions(input: &str, start: u32, names: &[String]) -> (out: Suggestions)
    requires
        suggestible(input@, start),
    ensures
        out.start == spec_suggest(input@, start, names@.map_values(|n: String| n@)).0,
        out.length == spec_suggest(input@, start, names@.map_values(|n: String| n@)).1,
        out.values@.len() == spec_suggest(input@, start, names@.map_values(|n: String| n@)).2.len(),
        forall|i: int|
            0 <= i < out.values@.len() ==> #[trigger] out.values@[i]@ == spec_suggest(
                input@,
                start,
                names@.map_values(|n: String| n@),
            ).2[i],
{
    let cs = chars_of(input);
    let ghost s = input@;
    let ghost views = names@.map_values(|n: String| n@);
    let n = cs.len();
    let start_char: usize = match char_index_of_byte_exec(cs.as_slice(), start) {
        Some(t) => t,
        None => 0,
    };
    proof {
        lemma_char_index_bound(s, start as int);
    }
    let token: usize = match last_of_exec(cs.as_slice(), 0, ' ', ',') {
        Some(sep) => sep + 1,
        None => start_char,
    };
    let b: usize = match last_of_exec(cs.as_slice(), token, '%', '%') {
        Some(pct) => pct + 1,
        None => token,
    };
    let mut raw: Vec<char> = Vec::new();
    let mut j: usize = b;
    while j < n
        invariant
            b <= j <= n,
            n == cs@.len(),
            raw@ == cs@.subrange(b as int, j as int),
        decreases n - j,
    {
        raw.push(cs[j]);
        j += 1;
    }
    let mc = chars_of("minecraft:");
    proof {
        reveal_strlit("minecraft:");
    }
    let namespaced = starts_with_chars(raw.as_slice(), mc.as_slice());
    let r: usize = if namespaced {
        b + 10
    } else {
        b
    };
    let mut prefix: Vec<char> = Vec::new();
    let mut k: usize = r;
    while k < n
        invariant
            r <= n,
            r <= k <= n,
            n == cs@.len(),
            prefix@ == cs@.subrange(r as int, k as int),
        decreases n - k,
    {
        prefix.push(cs[k]);
        k += 1;
    }
    proof {
        if namespaced {
            assert(raw@.subrange(10, raw@.len() as int) =~= cs@.subrange(r as int, n as int));
        }
    }
    let before = byte_len_exec(cs.as_slice(), r);
    let total = byte_len_exec(cs.as_slice(), n);
    proof {
        assert(cs@.take(n as int) =~= cs@);
        lemma_byte_len_mono(cs@, r as int, n as int);
    }
    let diff = total - before;
    #[verifier::truncate]
    let start_out = before as u32;
    #[verifier::truncate]
    let length_out = diff as u32;
    let mut values: Vec<String> = Vec::new();
    let mut i: usize = 0;
    while i < names.len() && values.len() < MAX_SUGGESTIONS
        invariant
            i <= names@.len(),
            views == names@.map_values(|n: String| n@),
            values@.len() <= 100,
            values@.len() == prefix_matches(views.take(i as int), prefix@).len(),
            forall|q: int|
                0 <= q < values@.len() ==> #[trigger] values@[q]@ == prefix_matches(
                    views.take(i as int),
                    prefix@,
                )[q],
        decreases names@.len() - i,
    {
        let name = chars_of(names[i].as_str());
        assert(views.take(i + 1).drop_last() =~= views.take(i as int));
        assert(views.take(i + 1).last() == names@[i as int]@);
        if starts_with_chars(name.as_slice(), prefix.as_slice()) {
            values.push(names[i].clone());
        }
        i += 1;
    }
    proof {
        let all = prefix_matches(views, prefix@);
        let got = prefix_matches(views.take(i as int), prefix@);
        assert(views.take(views.len() as int) =~= views);
        lemma_matches_prefix_stable(views, prefix@, i as int, views.len() as int);
        if i < names@.len() {
            assert(values@.len() == 100);
            assert(all.take(100) == got);
        }
    }
    Suggestions { start: start_out, length: length_out, values }
}

proof fn lemma_char_index_bound(s: Seq<char>, b: int)
    ensures
        char_index_of_byte(s, b) matches Some(t) ==> 0 <= t <= s.len(),
    decreases s.len(),
{
    if b != 0 && s.len() > 0 && b >= 0 {
        lemma_char_index_bound(s.drop_first(), b - utf8_len(s[0]));
    }
}

proof fn lemma_byte_len_mono(s: Seq<char>, i: int, j: int)
    requires
        0 <= i <= j <= s.len(),
    ensures
        byte_len(s.take(i)) <= byte_len(s.take(j)),
    decreases j - i,
{
    if i < j {
        lemma_byte_len_mono(s, i, j - 1);
        assert(s.take(j).drop_last() =~= s.take(j - 1));
    }
}

} // verus!
