//! Recognising a refusal by the way it opens.
//!
//! A message that opens with one of the known phrases counts as a refusal. This
//! matches openings and nothing more: it knows the usual wordings, and takes a
//! quoted refusal for one.

use vstd::prelude::*;

use crate::text::{is_setting, setting_is};

verus! {

// ── characters ──
/// A character that counts as white space.
pub open spec fn is_white(c: char) -> bool {
    let x = c as u32;
    ||| 0x9 <= x <= 0xd
    ||| x == 0x20
    ||| x == 0x85
    ||| x == 0xa0
    ||| x == 0x1680
    ||| 0x2000 <= x <= 0x200a
    ||| x == 0x2028
    ||| x == 0x2029
    ||| x == 0x202f
    ||| x == 0x205f
    ||| x == 0x3000
}

fn white(c: char) -> (r: bool)
    ensures
        r == is_white(c),
{
    let x: u32 = c as u32;
    (0x9 <= x && x <= 0xd) || x == 0x20 || x == 0x85 || x == 0xa0 || x == 0x1680 || (0x2000 <= x && x <= 0x200a) || x
        == 0x2028 || x == 0x2029 || x == 0x202f || x == 0x205f || x == 0x3000
}

/// The lower-case form of a character, which may be several characters.
pub uninterp spec fn lower_of(c: char) -> Seq<char>;

/// The lower-case form of an ASCII character: that of a letter, else the
/// character itself.
pub open spec fn ascii_lower(c: char) -> char {
    if 'A' <= c <= 'Z' {
        (c as u32 + 32) as char
    } else {
        c
    }
}

/// `char::to_lowercase`: the characters it yields, in order. An ASCII letter has
/// a mapping of its own, and other ASCII characters have none. Nothing is said of
/// what comes of characters beyond ASCII.
#[verifier::external_body]
fn lower(c: char) -> (r: Vec<char>)
    ensures
        r@ == lower_of(c),
        (c as u32) < 128 ==> r@ == seq![ascii_lower(c)],
{
    c.to_lowercase().collect()
}

/// The lower-case form of a text.
pub open spec fn lower_all(s: Seq<char>) -> Seq<char>
    decreases s.len(),
{
    if s.len() == 0 {
        Seq::empty()
    } else {
        lower_all(s.drop_last()) + lower_of(s.last())
    }
}

/// A text in ASCII.
pub open spec fn all_ascii(s: Seq<char>) -> bool {
    forall|i: int| 0 <= i < s.len() ==> (#[trigger] s[i] as u32) < 128
}

/// The lower-case form of a text in ASCII.
pub open spec fn ascii_lower_all(s: Seq<char>) -> Seq<char> {
    Seq::new(s.len(), |i: int| ascii_lower(s[i]))
}

fn chars_of(s: &str) -> (r: Vec<char>)
    ensures
        r@ == s@,
{
    let mut v: Vec<char> = Vec::new();
    for c in it: s.chars()
        invariant
            it.seq() == s@,
            v@ == s@.take(it.index() as int),
    {
        v.push(c);
        assert(v@ =~= s@.take(it.index() + 1));
    }
    assert(v@ =~= s@);
    v
}

// ── trimming ──
/// Where the text starts, past its white space.
pub open spec fn is_start(s: Seq<char>, k: int) -> bool {
    &&& 0 <= k <= s.len()
    &&& forall|i: int| 0 <= i < k ==> is_white(#[trigger] s[i])
    &&& k < s.len() ==> !is_white(s[k])
}

/// Where the text ends, before its white space.
pub open spec fn is_end(s: Seq<char>, k: int) -> bool {
    &&& 0 <= k <= s.len()
    &&& forall|i: int| k <= i < s.len() ==> is_white(#[trigger] s[i])
    &&& k > 0 ==> !is_white(s[k - 1])
}

fn start_of(s: &Vec<char>) -> (r: usize)
    ensures
        is_start(s@, r as int),
{
    let mut k: usize = 0;
    while k < s.len() && white(s[k])
        invariant
            k <= s@.len(),
            forall|i: int| 0 <= i < k ==> is_white(#[trigger] s@[i]),
        decreases s@.len() - k,
    {
        k += 1;
    }
    k
}

// ── the opening ──
/// The openings that are known, in lower case.
pub open spec fn refusal_prefixes() -> Seq<Seq<char>> {
    seq![
        "i cannot "@,
        "i can't help with "@,
        "i can't assist with "@,
        "i'm not able to "@,
        "i am not able to "@,
        "i'm unable to "@,
        "i am unable to "@,
        "i must decline"@,
        "i won't assist"@,
        "i will not assist"@,
        "i won't help"@,
        "i will not help"@,
        "sorry, i cannot"@,
        "sorry, but i can't"@,
        "sorry, but i cannot"@,
        "i'm sorry, but i can't"@,
        "i'm sorry, but i cannot"@,
        "i apologize, but i can't"@,
        "i apologize, but i cannot"@,
        "as an ai, i cannot"@,
        "as an ai, i can't"@,
        "as an ai language model, i cannot"@,
        "as an ai language model, i can't"@,
    ]
}

fn list_prefixes() -> (r: Vec<&'static str>)
    ensures
        r@.len() == refusal_prefixes().len(),
        forall|i: int| 0 <= i < r@.len() ==> (#[trigger] r@[i])@ == refusal_prefixes()[i],
{
    vec![
        "i cannot ",
        "i can't help with ",
        "i can't assist with ",
        "i'm not able to ",
        "i am not able to ",
        "i'm unable to ",
        "i am unable to ",
        "i must decline",
        "i won't assist",
        "i will not assist",
        "i won't help",
        "i will not help",
        "sorry, i cannot",
        "sorry, but i can't",
        "sorry, but i cannot",
        "i'm sorry, but i can't",
        "i'm sorry, but i cannot",
        "i apologize, but i can't",
        "i apologize, but i cannot",
        "as an ai, i cannot",
        "as an ai, i can't",
        "as an ai language model, i cannot",
        "as an ai language model, i can't",
    ]
}

/// A text that opens like a refusal.
pub open spec fn opens_as_refusal(head: Seq<char>) -> bool {
    exists|k: int| 0 <= k < refusal_prefixes().len() && (#[trigger] refusal_prefixes()[k]).is_prefix_of(head)
}

fn starts_with(head: &Vec<char>, p: &str) -> (r: bool)
    ensures
        r == p@.is_prefix_of(head@),
{
    let n: usize = p.unicode_len();
    if n > head.len() {
        return false;
    }
    let mut i: usize = 0;
    while i < n
        invariant
            i <= n <= head@.len(),
            n == p@.len(),
            forall|j: int| 0 <= j < i ==> p@[j] == head@[j],
        decreases n - i,
    {
        if p.get_char(i) != head[i] {
            assert(p@[i as int] != head@.subrange(0, n as int)[i as int]);
            return false;
        }
        i += 1;
    }
    assert(p@ =~= head@.subrange(0, n as int));
    true
}

fn check_opening(head: &Vec<char>) -> (r: bool)
    ensures
        r == opens_as_refusal(head@),
{
    let prefixes = list_prefixes();
    let mut k: usize = 0;
    while k < prefixes.len()
        invariant
            k <= prefixes@.len(),
            prefixes@.len() == refusal_prefixes().len(),
            forall|i: int| 0 <= i < prefixes@.len() ==> (#[trigger] prefixes@[i])@ == refusal_prefixes()[i],
            forall|i: int| 0 <= i < k ==> !(#[trigger] refusal_prefixes()[i]).is_prefix_of(head@),
        decreases prefixes@.len() - k,
    {
        if starts_with(head, prefixes[k]) {
            assert(refusal_prefixes()[k as int].is_prefix_of(head@));
            return true;
        }
        k += 1;
    }
    false
}

// ── the sentence ──
pub open spec fn ends_sentence(c: char) -> bool {
    c == '.' || c == '?' || c == '!'
}

/// How far into a text its first sentence is looked for.
pub const SENTENCE_BOUND: usize = 512;

/// `k` is the length of the first sentence: up to and with its mark, where there
/// is one within bounds; else up to the end of the line; else the whole text.
pub open spec fn is_sentence(s: Seq<char>, k: int) -> bool {
    if exists|i: int| 0 <= i < s.len() && i < SENTENCE_BOUND && ends_sentence(#[trigger] s[i]) {
        &&& 1 <= k <= s.len()
        &&& k <= SENTENCE_BOUND
        &&& ends_sentence(s[k - 1])
        &&& forall|i: int| 0 <= i < k - 1 ==> !ends_sentence(#[trigger] s[i])
    } else {
        &&& 0 <= k <= s.len()
        &&& k < s.len() ==> s[k] == '\n'
        &&& forall|i: int| 0 <= i < k ==> #[trigger] s[i] != '\n'
    }
}

fn sentence_len(s: &Vec<char>, from: usize) -> (r: usize)
    requires
        from <= s@.len(),
    ensures
        r <= s@.len() - from,
        is_sentence(s@.skip(from as int), r as int),
{
    let ghost t = s@.skip(from as int);
    let total: usize = s.len();
    let n: usize = total - from;
    let mut i: usize = 0;
    while i < n && i < SENTENCE_BOUND
        invariant
            from <= s@.len(),
            n == total - from,
            total == s@.len(),
            t == s@.skip(from as int),
            i <= n,
            i <= SENTENCE_BOUND,
            forall|j: int| 0 <= j < i ==> !ends_sentence(#[trigger] t[j]),
        decreases n - i,
    {
        let c: char = s[from + i];
        assert(c == t[i as int]);
        if c == '.' || c == '?' || c == '!' {
            return i + 1;
        }
        i += 1;
    }
    assert(!exists|j: int| 0 <= j < t.len() && j < SENTENCE_BOUND && ends_sentence(#[trigger] t[j]));
    let mut k: usize = 0;
    while k < n && s[from + k] != '\n'
        invariant
            from <= s@.len(),
            n == total - from,
            total == s@.len(),
            t == s@.skip(from as int),
            k <= n,
            forall|j: int| 0 <= j < k ==> #[trigger] t[j] != '\n',
        decreases n - k,
    {
        assert(t[k as int] == s@[from + k]);
        k += 1;
    }
    assert(k < n ==> t[k as int] == s@[from + k]);
    k
}

/// What a message that opens as a refusal is answered with: its first sentence
/// without white space around it.
pub open spec fn is_refusal_text(content: Seq<char>, r: Seq<char>) -> bool {
    exists|a: int, k: int, e: int|
        {
            &&& is_start(content, a)
            &&& #[trigger] is_sentence(content.skip(a), k)
            &&& #[trigger] is_end(content.skip(a).take(k), e)
            &&& r == content.skip(a).take(k).take(e)
        }
}

/// Where the message starts, and its opening in lower case.
pub open spec fn is_head(content: Seq<char>, head: Seq<char>) -> bool {
    exists|a: int|
        #[trigger] is_start(content, a) && a < content.len() && head == lower_all(opening(content.skip(a)))
}

/// The first characters of a text, as many as an opening is matched against.
pub open spec fn opening(s: Seq<char>) -> Seq<char> {
    if s.len() < OPENING_CHARS {
        s
    } else {
        s.take(OPENING_CHARS as int)
    }
}

/// The first `m` characters of the opening, which starts at `a`, are in ASCII.
pub open spec fn is_ascii_run(content: Seq<char>, a: int, m: int) -> bool {
    &&& is_start(content, a)
    &&& a < content.len()
    &&& 0 <= m <= opening(content.skip(a)).len()
    &&& all_ascii(content.skip(a).take(m))
}

/// That run in lower case.
pub open spec fn lower_run(content: Seq<char>, a: int, m: int) -> Seq<char> {
    ascii_lower_all(content.skip(a).take(m))
}

/// Two texts agree as far as both go.
pub open spec fn agree(a: Seq<char>, b: Seq<char>) -> bool {
    forall|j: int| 0 <= j < a.len() && j < b.len() ==> #[trigger] a[j] == b[j]
}

/// A text that may go on to open like a refusal.
pub open spec fn may_open_as_refusal(head: Seq<char>) -> bool {
    exists|k: int| 0 <= k < refusal_prefixes().len() && agree(#[trigger] refusal_prefixes()[k], head)
}

/// How many characters an opening is matched against.
pub const OPENING_CHARS: usize = 48;

/// The refusal in a message, given its opening in lower case: nothing unless
/// that opening is known.
pub fn refusal_sentence(content: &str, head: &Vec<char>) -> (r: Option<String>)
    ensures
        match r {
            Some(s) => opens_as_refusal(head@) && is_refusal_text(content@, s@),
            None => !opens_as_refusal(head@),
        },
{
    if !check_opening(head) {
        return None;
    }
    let s = chars_of(content);
    let a: usize = start_of(&s);
    let k: usize = sentence_len(&s, a);
    let ghost t = s@.skip(a as int).take(k as int);
    let total: usize = s.len();
    let mut e: usize = k;
    while e > 0 && white(s[a + e - 1])
        invariant
            e <= k,
            a + k <= total == s@.len(),
            t == s@.skip(a as int).take(k as int),
            forall|i: int| e <= i < k ==> is_white(#[trigger] t[i]),
        decreases e,
    {
        assert(t[e - 1] == s@[a + e - 1]);
        e -= 1;
    }
    proof {
        assert(e > 0 ==> t[e - 1] == s@[a + e - 1]);
        assert(is_end(t, e as int));
        assert(s@.subrange(a as int, a + e) =~= t.take(e as int));
    }
    let sentence = content.substring_char(a, a + e);
    Some(sentence.to_owned())
}

/// The refusal in a message, or nothing. With the switch `disable` set to `1`
/// there never is one.
///
/// Where the opening starts with characters in ASCII, those decide as far as they
/// go: a known phrase among them makes it a refusal, and one that no known phrase
/// agrees with rules it out.
pub fn detect(content: &str, disable: Option<&str>) -> (r: Option<String>)
    ensures
        is_setting(disable, "1"@) ==> r is None,
        !is_setting(disable, "1"@) ==> match r {
            Some(s) => {
                &&& exists|head: Seq<char>| #[trigger] is_head(content@, head) && opens_as_refusal(head)
                &&& is_refusal_text(content@, s@)
            },
            None => forall|head: Seq<char>| #[trigger] is_head(content@, head) ==> !opens_as_refusal(head),
        },
        !is_setting(disable, "1"@) ==> forall|a: int, m: int| #[trigger]
            is_ascii_run(content@, a, m) ==> {
                &&& opens_as_refusal(lower_run(content@, a, m)) ==> r is Some
                &&& !may_open_as_refusal(lower_run(content@, a, m)) ==> r is None
                &&& m == opening(content@.skip(a)).len() ==> (r is Some == opens_as_refusal(lower_run(content@, a, m)))
            },
{
    if setting_is(disable, "1") {
        return None;
    }
    let s = chars_of(content);
    let a: usize = start_of(&s);
    if a == s.len() {
        assert forall|head: Seq<char>| #[trigger] is_head(content@, head) implies !opens_as_refusal(head) by {
            let b = choose|b: int| #[trigger] is_start(content@, b) && b < content@.len() && head == lower_all(
                opening(content@.skip(b)),
            );
            assert(is_white(content@[b]));
        }
        assert forall|b: int| #[trigger] is_start(content@, b) implies b == content@.len() by {
            if b < content@.len() {
                assert(is_white(content@[b]));
            }
        }
        return None;
    }
    let ghost t = s@.skip(a as int);
    let total: usize = s.len();
    let n: usize = total - a;
    let limit: usize = if n < OPENING_CHARS { n } else { OPENING_CHARS };
    let mut head: Vec<char> = Vec::new();
    let mut i: usize = 0;
    assert(t.take(0) =~= Seq::empty());
    assert(head@ =~= ascii_lower_all(t.take(0)));
    while i < limit
        invariant
            i <= limit,
            a + limit <= total == s@.len(),
            t == s@.skip(a as int),
            head@ == lower_all(t.take(i as int)),
            all_ascii(t.take(i as int)) ==> head@ == ascii_lower_all(t.take(i as int)),
            forall|m: int| #![trigger t.take(m)] 0 <= m <= i && all_ascii(t.take(m)) ==> ascii_lower_all(t.take(m)).is_prefix_of(head@),
        decreases limit - i,
    {
        let ghost was = head@;
        let mut more = lower(s[a + i]);
        head.append(&mut more);
        i += 1;
        proof {
            if all_ascii(t.take(i as int)) {
                assert forall|j: int| 0 <= j < i - 1 implies (#[trigger] t.take(i - 1)[j] as u32) < 128 by {
                    assert(t.take(i - 1)[j] == t.take(i as int)[j]);
                }
                assert((t.take(i as int)[i - 1] as u32) < 128);
                assert(head@ =~= ascii_lower_all(t.take(i as int)));
            }
            assert forall|m: int| #![trigger t.take(m)] 0 <= m <= i && all_ascii(t.take(m)) implies ascii_lower_all(
                t.take(m),
            ).is_prefix_of(head@) by {
                let run = ascii_lower_all(t.take(m));
                if m < i {
                    assert(run.is_prefix_of(was));
                    assert(head@.subrange(0, m) =~= was.subrange(0, m));
                } else {
                    assert(head@.subrange(0, m) =~= run);
                }
            }
            assert(t.take(i as int).drop_last() =~= t.take(i - 1));
            assert(t.take(i as int).last() == s@[a + i - 1]);
        }
    }
    proof {
        assert(opening(t) =~= t.take(limit as int));
        assert(is_head(content@, head@));
        assert forall|other: Seq<char>| #[trigger] is_head(content@, other) implies other == head@ by {
            let b = choose|b: int| #[trigger] is_start(content@, b) && b < content@.len() && other == lower_all(
                opening(content@.skip(b)),
            );
            if b < a {
                assert(is_white(content@[b]));
            } else if b > a {
                assert(is_white(content@[a as int]));
            }
        }
        assert forall|b: int| #[trigger] is_start(content@, b) && b < content@.len() implies b == a by {
            if b < a {
                assert(is_white(content@[b]));
            } else if b > a {
                assert(is_white(content@[a as int]));
            }
        }
        assert forall|b: int, m: int| #[trigger] is_ascii_run(content@, b, m) implies {
            &&& opens_as_refusal(lower_run(content@, b, m)) ==> opens_as_refusal(head@)
            &&& !may_open_as_refusal(lower_run(content@, b, m)) ==> !opens_as_refusal(head@)
            &&& m == opening(content@.skip(b)).len() ==> (opens_as_refusal(head@) == opens_as_refusal(
                lower_run(content@, b, m),
            ))
        } by {
            assert(b == a);
            let run = lower_run(content@, b, m);
            assert(t.take(m) == content@.skip(b).take(m));
            assert(run.is_prefix_of(head@));
            lemma_run_decides(run, head@);
            if m == opening(content@.skip(b)).len() {
                assert(m == limit);
                assert(head@ == run);
            }
        }
    }
    refusal_sentence(content, &head)
}

/// What a text starts with decides as far as it goes.
proof fn lemma_run_decides(run: Seq<char>, head: Seq<char>)
    requires
        run.is_prefix_of(head),
    ensures
        opens_as_refusal(run) ==> opens_as_refusal(head),
        opens_as_refusal(head) ==> may_open_as_refusal(run),
{
    assert forall|j: int| 0 <= j < run.len() implies run[j] == head[j] by {
        assert(head.subrange(0, run.len() as int)[j] == head[j]);
    }
    if opens_as_refusal(run) {
        let k = choose|k: int|
            0 <= k < refusal_prefixes().len() && (#[trigger] refusal_prefixes()[k]).is_prefix_of(run);
        let p = refusal_prefixes()[k];
        assert(p =~= head.subrange(0, p.len() as int)) by {
            assert forall|j: int| 0 <= j < p.len() implies p[j] == head[j] by {
                assert(run.subrange(0, p.len() as int)[j] == run[j]);
            }
        }
        assert(p.is_prefix_of(head));
    }
    if opens_as_refusal(head) {
        let k = choose|k: int|
            0 <= k < refusal_prefixes().len() && (#[trigger] refusal_prefixes()[k]).is_prefix_of(head);
        let p = refusal_prefixes()[k];
        assert forall|j: int| 0 <= j < p.len() && j < run.len() implies #[trigger] p[j] == run[j] by {
            assert(head.subrange(0, p.len() as int)[j] == head[j]);
        }
        assert(agree(p, run));
    }
}

// ── laws ──
proof fn lemma_same_lower(a: Seq<char>, b: Seq<char>)
    requires
        a.len() == b.len(),
        forall|i: int| 0 <= i < a.len() ==> lower_of(#[trigger] a[i]) == lower_of(b[i]),
    ensures
        lower_all(a) == lower_all(b),
    decreases a.len(),
{
    if a.len() > 0 {
        assert forall|i: int| 0 <= i < a.len() - 1 implies lower_of(#[trigger] a.drop_last()[i]) == lower_of(
            b.drop_last()[i],
        ) by {
            assert(a.drop_last()[i] == a[i]);
        }
        lemma_same_lower(a.drop_last(), b.drop_last());
        assert(lower_of(a[a.len() - 1]) == lower_of(b[a.len() - 1]));
    }
}

/// Case does not matter: two messages that differ in case alone have the same
/// opening, so that both count as refusals or neither does.
pub proof fn case_does_not_matter(a: Seq<char>, b: Seq<char>)
    requires
        a.len() == b.len(),
        forall|i: int| 0 <= i < a.len() ==> lower_of(#[trigger] a[i]) == lower_of(b[i]),
    ensures
        lower_all(opening(a)) == lower_all(opening(b)),
        opens_as_refusal(lower_all(opening(a))) == opens_as_refusal(lower_all(opening(b))),
{
    let x = opening(a);
    let y = opening(b);
    assert forall|i: int| 0 <= i < x.len() implies lower_of(#[trigger] x[i]) == lower_of(y[i]) by {
        assert(x[i] == a[i]);
    }
    lemma_same_lower(x, y);
}

/// The refusal that is reported stands in the message word for word.
pub proof fn refusal_is_quoted(content: Seq<char>, r: Seq<char>)
    requires
        is_refusal_text(content, r),
    ensures
        exists|i: int| 0 <= i <= content.len() - r.len() && #[trigger] content.subrange(i, i + r.len()) == r,
{
    let (a, k, e) = choose|a: int, k: int, e: int|
        {
            &&& is_start(content, a)
            &&& #[trigger] is_sentence(content.skip(a), k)
            &&& #[trigger] is_end(content.skip(a).take(k), e)
            &&& r == content.skip(a).take(k).take(e)
        };
    assert(content.subrange(a, a + r.len()) =~= r);
}

} // verus!
