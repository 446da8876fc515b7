use vstd::prelude::*;

use crate::config::OutputFormat;
use crate::schema::chars_of;
use crate::value::{pretty, JsonTree};

verus! {

/// Unicode `White_Space`.
pub open spec fn is_ws(c: char) -> bool {
    ('\u{9}' <= c && c <= '\u{d}') || c == ' ' || c == '\u{85}' || c == '\u{a0}' || c == '\u{1680}'
        || ('\u{2000}' <= c && c <= '\u{200a}') || c == '\u{2028}' || c == '\u{2029}' || c
        == '\u{202f}' || c == '\u{205f}' || c == '\u{3000}'
}

/// Three backticks start at `i`.
pub open spec fn fence_at(t: Seq<char>, i: int) -> bool {
    0 <= i && i + 3 <= t.len() && t[i] == '`' && t[i + 1] == '`' && t[i + 2] == '`'
}

pub open spec fn word_at(t: Seq<char>, p: int, w: Seq<char>) -> bool {
    0 <= p && p + w.len() <= t.len() && t.subrange(p, p + w.len()) == w
}

/// The length of the optional language tag after an opening fence.
pub open spec fn tag_len(t: Seq<char>, p: int, f: OutputFormat) -> int {
    match f {
        OutputFormat::Yaml => if word_at(t, p, "yaml"@) {
            4
        } else if word_at(t, p, "yml"@) {
            3
        } else {
            0
        },
        OutputFormat::Xml => if word_at(t, p, "xml"@) {
            3
        } else {
            0
        },
        _ => if word_at(t, p, "json"@) {
            4
        } else {
            0
        },
    }
}

/// The first position at or after `p` that does not hold whitespace.
pub open spec fn skip_ws(t: Seq<char>, p: int) -> int
    decreases t.len() - p,
{
    if 0 <= p < t.len() && is_ws(t[p]) {
        skip_ws(t, p + 1)
    } else {
        p
    }
}

/// The first fence at or after `p`.
pub open spec fn next_fence(t: Seq<char>, p: int) -> Option<int>
    decreases t.len() - p,
{
    if p < 0 || p + 3 > t.len() {
        None
    } else if fence_at(t, p) {
        Some(p)
    } else {
        next_fence(t, p + 1)
    }
}

/// `q` moved back over the whitespace that ends `t[s..q]`.
pub open spec fn trim_end(t: Seq<char>, s: int, q: int) -> int
    decreases q - s,
{
    if s < q && 0 < q <= t.len() && is_ws(t[q - 1]) {
        trim_end(t, s, q - 1)
    } else {
        q
    }
}

/// The content of a JSON or YAML block opened at `i`: after the tag and the
/// whitespace, up to the next fence, trailing whitespace left out.
pub open spec fn plain_block_at(t: Seq<char>, i: int, f: OutputFormat) -> Option<(int, int)> {
    if !fence_at(t, i) {
        None
    } else {
        let s = skip_ws(t, i + 3 + tag_len(t, i + 3, f));
        match next_fence(t, s) {
            Some(q) => Some((s, trim_end(t, s, q))),
            None => None,
        }
    }
}

/// The first `>` at or after `p` that is followed by whitespace and a fence.
pub open spec fn xml_end(t: Seq<char>, p: int) -> Option<int>
    decreases t.len() - p,
{
    if p < 0 || p >= t.len() {
        None
    } else if t[p] == '>' && fence_at(t, skip_ws(t, p + 1)) {
        Some(p)
    } else {
        xml_end(t, p + 1)
    }
}

/// The content of an XML block opened at `i`: from the first `<` after the
/// tag and the whitespace, through the first `>` that the closing fence follows.
pub open spec fn xml_block_at(t: Seq<char>, i: int) -> Option<(int, int)> {
    if !fence_at(t, i) {
        None
    } else {
        let s = skip_ws(t, i + 3 + tag_len(t, i + 3, OutputFormat::Xml));
        if s < t.len() && t[s] == '<' {
            match xml_end(t, s + 1) {
                Some(k) => Some((s, k + 1)),
                None => None,
            }
        } else {
            None
        }
    }
}

pub open spec fn block_at(t: Seq<char>, i: int, f: OutputFormat) -> Option<(int, int)> {
    if f == OutputFormat::Xml {
        xml_block_at(t, i)
    } else {
        plain_block_at(t, i, f)
    }
}

/// The bounds of the leftmost block that opens at or after `i`.
pub open spec fn first_block_from(t: Seq<char>, i: int, f: OutputFormat) -> Option<(int, int)>
    decreases t.len() - i,
{
    if i < 0 || i + 3 > t.len() {
        None
    } else {
        match block_at(t, i, f) {
            Some(b) => Some(b),
            None => first_block_from(t, i + 1, f),
        }
    }
}

/// The content of the leftmost fenced block of the format, if there is one.
pub open spec fn fenced_block(t: Seq<char>, f: OutputFormat) -> Option<Seq<char>> {
    match first_block_from(t, 0, f) {
        Some((a, b)) => Some(t.subrange(a, b)),
        None => None,
    }
}

/// The text handed to the decoder: the fenced block, else the whole reply.
pub open spec fn payload(t: Seq<char>, f: OutputFormat) -> Seq<char> {
    match fenced_block(t, f) {
        Some(b) => b,
        None => t,
    }
}


fn is_ws_char(c: char) -> (r: bool)
    ensures
        r == is_ws(c),
{
    ('\u{9}' <= c && c <= '\u{d}') || c == ' ' || c == '\u{85}' || c == '\u{a0}' || c == '\u{1680}'
        || ('\u{2000}' <= c && c <= '\u{200a}') || c == '\u{2028}' || c == '\u{2029}' || c
        == '\u{202f}' || c == '\u{205f}' || c == '\u{3000}'
}

fn fence_at_exec(cs: &Vec<char>, i: usize) -> (r: bool)
    ensures
        r == fence_at(cs@, i as int),
{
    i < cs.len() && cs.len() - i >= 3 && cs[i] == '`' && cs[i + 1] == '`' && cs[i + 2] == '`'
}

fn word_at_exec(cs: &Vec<char>, p: usize, w: &str) -> (r: bool)
    ensures
        r == word_at(cs@, p as int, w@),
{
    let n = w.unicode_len();
    if p > cs.len() || cs.len() - p < n {
        return false;
    }
    let mut j: usize = 0;
    while j < n
        invariant
            n == w@.len(),
            p + n <= cs.len(),
            0 <= j <= n,
            forall|k: int| 0 <= k < j ==> cs@[p + k] == w@[k],
        decreases n - j,
    {
        if cs[p + j] != w.get_char(j) {
            proof {
                assert(cs@.subrange(p as int, p + n)[j as int] != w@[j as int]);
            }
            return false;
        }
        j = j + 1;
    }
    proof {
        assert(cs@.subrange(p as int, p + n) =~= w@);
    }
    true
}

fn tag_len_exec(cs: &Vec<char>, p: usize, f: OutputFormat) -> (r: usize)
    ensures
        r == tag_len(cs@, p as int, f),
{
    match f {
        OutputFormat::Yaml => if word_at_exec(cs, p, "yaml") {
            4
        } else if word_at_exec(cs, p, "yml") {
            3
        } else {
            0
        },
        OutputFormat::Xml => if word_at_exec(cs, p, "xml") {
            3
        } else {
            0
        },
        _ => if word_at_exec(cs, p, "json") {
            4
        } else {
            0
        },
    }
}

fn skip_ws_exec(cs: &Vec<char>, p: usize) -> (r: usize)
    requires
        p <= cs.len(),
    ensures
        r == skip_ws(cs@, p as int),
        p <= r <= cs.len(),
{
    let mut q = p;
    while q < cs.len() && is_ws_char(cs[q])
        invariant
            p <= q <= cs.len(),
            skip_ws(cs@, q as int) == skip_ws(cs@, p as int),
        decreases cs.len() - q,
    {
        q = q + 1;
    }
    q
}

fn next_fence_exec(cs: &Vec<char>, p: usize) -> (r: Option<usize>)
    ensures
        match next_fence(cs@, p as int) {
            Some(q) => r == Some(q as usize) && p <= q && q + 3 <= cs.len(),
            None => r is None,
        },
{
    let mut q = p;
    while q < cs.len() && cs.len() - q >= 3
        invariant
            p <= q,
            next_fence(cs@, q as int) == next_fence(cs@, p as int),
        decreases cs.len() - q,
    {
        if fence_at_exec(cs, q) {
            return Some(q);
        }
        q = q + 1;
    }
    None
}

fn trim_end_exec(cs: &Vec<char>, s: usize, q: usize) -> (r: usize)
    requires
        s <= q <= cs.len(),
    ensures
        r == trim_end(cs@, s as int, q as int),
        s <= r <= q,
{
    let mut e = q;
    while s < e && is_ws_char(cs[e - 1])
        invariant
            s <= e <= q,
            q <= cs.len(),
            trim_end(cs@, s as int, e as int) == trim_end(cs@, s as int, q as int),
        decreases e - s,
    {
        e = e - 1;
    }
    e
}

fn xml_end_exec(cs: &Vec<char>, p: usize) -> (r: Option<usize>)
    ensures
        match xml_end(cs@, p as int) {
            Some(k) => r == Some(k as usize) && p <= k < cs.len(),
            None => r is None,
        },
{
    let mut k = p;
    while k < cs.len()
        invariant
            p <= k,
            xml_end(cs@, k as int) == xml_end(cs@, p as int),
        decreases cs.len() - k,
    {
        if cs[k] == '>' {
            let after = skip_ws_exec(cs, k + 1);
            if fence_at_exec(cs, after) {
                return Some(k);
            }
        }
        k = k + 1;
    }
    None
}

fn block_at_exec(cs: &Vec<char>, i: usize, f: OutputFormat) -> (r: Option<(usize, usize)>)
    requires
        i + 3 <= cs.len(),
    ensures
        match block_at(cs@, i as int, f) {
            Some((a, b)) => r == Some((a as usize, b as usize)) && 0 <= a <= b <= cs.len(),
            None => r is None,
        },
{
    if !fence_at_exec(cs, i) {
        return None;
    }
    let tag = tag_len_exec(cs, i + 3, f);
    proof {
        reveal_strlit("yaml");
        reveal_strlit("yml");
        reveal_strlit("xml");
        reveal_strlit("json");
    }
    let s = skip_ws_exec(cs, i + 3 + tag);
    if f == OutputFormat::Xml {
        if s < cs.len() && cs[s] == '<' {
            match xml_end_exec(cs, s + 1) {
                Some(k) => Some((s, k + 1)),
                None => None,
            }
        } else {
            None
        }
    } else {
        match next_fence_exec(cs, s) {
            Some(q) => {
                let e = trim_end_exec(cs, s, q);
                Some((s, e))
            },
            None => None,
        }
    }
}

/// The bounds of the leftmost fenced block of the format, in characters.
fn first_block(cs: &Vec<char>, f: OutputFormat) -> (r: Option<(usize, usize)>)
    ensures
        match first_block_from(cs@, 0, f) {
            Some((a, b)) => r == Some((a as usize, b as usize)) && 0 <= a <= b <= cs.len(),
            None => r is None,
        },
{
    let mut i: usize = 0;
    while i < cs.len() && cs.len() - i >= 3
        invariant
            first_block_from(cs@, i as int, f) == first_block_from(cs@, 0, f),
        decreases cs.len() - i,
    {
        match block_at_exec(cs, i, f) {
            Some(b) => {
                return Some(b);
            },
            None => {},
        }
        i = i + 1;
    }
    None
}

/// The text to decode, located in a model's reply.
#[derive(Clone, Debug, PartialEq)]
pub struct Candidate {
    pub text: String,
    /// Whether it came from a fenced block rather than the whole reply.
    pub fenced: bool,
}

/// Locates the payload of a reply: the content of the leftmost fenced block
/// of the format, else the whole reply.
pub fn locate_payload(reply: &str, format: OutputFormat) -> (r: Candidate)
    ensures
        r.text@ == payload(reply@, format),
        r.fenced == fenced_block(reply@, format) is Some,
{
    let cs = chars_of(reply);
    match first_block(&cs, format) {
        Some((a, b)) => Candidate { text: reply.substring_char(a, b).to_string(), fenced: true },
        None => Candidate { text: reply.to_string(), fenced: false },
    }
}


/// No three backticks in a row anywhere in `x`.
pub open spec fn has_no_fence(x: Seq<char>) -> bool {
    forall|i: int| !#[trigger] fence_at(x, i)
}

proof fn lemma_no_block_from(t: Seq<char>, i: int, f: OutputFormat)
    requires
        has_no_fence(t),
    ensures
        first_block_from(t, i, f) is None,
    decreases t.len() - i,
{
    if !(i < 0 || i + 3 > t.len()) {
        assert(!fence_at(t, i));
        lemma_no_block_from(t, i + 1, f);
    }
}

/// A reply without any fence is decoded whole, whatever the format.
pub proof fn lemma_bare_payload(x: Seq<char>, f: OutputFormat)
    requires
        has_no_fence(x),
    ensures
        fenced_block(x, f) is None,
        payload(x, f) == x,
{
    lemma_no_block_from(x, 0, f);
}

proof fn lemma_next_fence_at(t: Seq<char>, p: int, q: int)
    requires
        0 <= p <= q,
        fence_at(t, q),
        forall|j: int| p <= j < q ==> !#[trigger] fence_at(t, j),
    ensures
        next_fence(t, p) == Some(q),
    decreases q - p,
{
    if p < q {
        assert(!fence_at(t, p));
        lemma_next_fence_at(t, p + 1, q);
    }
}

/// `x` without the whitespace at its start and at its end.
pub open spec fn trimmed(x: Seq<char>) -> Seq<char> {
    let a = skip_ws(x, 0);
    x.subrange(a, trim_end(x, a, x.len() as int))
}

proof fn lemma_skip_ws_stops(x: Seq<char>, j: int, i: int)
    requires
        0 <= j <= i < x.len(),
        !is_ws(x[i]),
    ensures
        j <= skip_ws(x, j) <= i,
        !is_ws(x[skip_ws(x, j)]),
    decreases i - j,
{
    if is_ws(x[j]) {
        lemma_skip_ws_stops(x, j + 1, i);
    }
}

proof fn lemma_skip_ws_inside(x: Seq<char>, t: Seq<char>, off: int, j: int)
    requires
        0 <= off,
        off + x.len() <= t.len(),
        forall|k: int| 0 <= k < x.len() ==> #[trigger] t[off + k] == x[k],
        0 <= j <= x.len(),
        skip_ws(x, j) < x.len(),
    ensures
        skip_ws(t, off + j) == off + skip_ws(x, j),
    decreases x.len() - j,
{
    if j < x.len() && is_ws(x[j]) {
        assert(t[off + j] == x[j]);
        lemma_skip_ws_inside(x, t, off, j + 1);
    } else {
        assert(t[off + j] == x[j]);
    }
}

proof fn lemma_trim_end_inside(x: Seq<char>, t: Seq<char>, off: int, a: int, q: int)
    requires
        0 <= off,
        off + x.len() <= t.len(),
        forall|k: int| 0 <= k < x.len() ==> #[trigger] t[off + k] == x[k],
        0 <= a <= q <= x.len(),
    ensures
        trim_end(t, off + a, off + q) == off + trim_end(x, a, q),
        a <= trim_end(x, a, q) <= q,
    decreases q - a,
{
    if a < q {
        let k = q - 1;
        assert(t[off + k] == x[k]);
        lemma_trim_end_inside(x, t, off, a, q - 1);
    }
}

proof fn lemma_no_block_before(t: Seq<char>, i: int, p: int, f: OutputFormat)
    requires
        0 <= i <= p,
        forall|j: int| i <= j < p ==> !#[trigger] fence_at(t, j),
    ensures
        first_block_from(t, i, f) == first_block_from(t, p, f),
    decreases p - i,
{
    if i < p {
        assert(!fence_at(t, i));
        if i + 3 <= t.len() {
            lemma_no_block_before(t, i + 1, p, f);
        } else {
            assert(first_block_from(t, p, f) is None);
        }
    }
}

/// In a text with no fence before a ```` ```json ```` block whose content `x`
/// holds no fence and a character that is not whitespace, the located payload
/// is `x` without its surrounding whitespace, whatever follows the block.
pub proof fn lemma_first_json_block(h: Seq<char>, x: Seq<char>, r: Seq<char>)
    requires
        has_no_fence(h),
        h.len() == 0 || h.last() != '`',
        has_no_fence(x),
        exists|i: int| 0 <= i < x.len() && !is_ws(#[trigger] x[i]),
    ensures
        payload(h + "```json\n"@ + x + "\n```"@ + r, OutputFormat::Json) == trimmed(x),
{
    reveal_strlit("```json\n");
    reveal_strlit("\n```");
    reveal_strlit("json");
    let n = x.len() as int;
    let m = h.len() as int;
    let t = h + "```json\n"@ + x + "\n```"@ + r;
    let w = choose|i: int| 0 <= i < x.len() && !is_ws(#[trigger] x[i]);
    lemma_skip_ws_stops(x, 0, w);
    let a = skip_ws(x, 0);
    assert(t.len() == m + n + 12 + r.len());
    assert(forall|k: int| 0 <= k < m ==> #[trigger] t[k] == h[k]);
    assert(forall|k: int| 0 <= k < n ==> #[trigger] t[m + 8 + k] == x[k]);
    assert(t[m + n + 8] == '\n');
    assert(fence_at(t, m + n + 9));
    assert(fence_at(t, m));
    assert forall|j: int| 0 <= j < m implies !#[trigger] fence_at(t, j) by {
        if j + 2 < m {
            assert(!fence_at(h, j));
            assert(t[j] == h[j]);
            assert(t[j + 1] == h[j + 1]);
            assert(t[j + 2] == h[j + 2]);
        } else {
            assert(t[m - 1] == h.last());
        }
    }
    lemma_no_block_before(t, 0, m, OutputFormat::Json);
    assert(t.subrange(m + 3, m + 7) =~= "json"@);
    assert(tag_len(t, m + 3, OutputFormat::Json) == 4);
    lemma_skip_ws_inside(x, t, m + 8, 0);
    assert(skip_ws(t, m + 8) == m + 8 + a);
    assert(skip_ws(t, m + 7) == m + 8 + a);
    assert forall|j: int| m + 8 + a <= j < m + n + 9 implies !#[trigger] fence_at(t, j) by {
        if j + 2 < m + n + 8 {
            assert(!fence_at(x, j - m - 8));
            assert(t[j] == x[j - m - 8]);
            assert(t[j + 1] == x[j - m - 7]);
            assert(t[j + 2] == x[j - m - 6]);
        }
    }
    lemma_next_fence_at(t, m + 8 + a, m + n + 9);
    lemma_trim_end_inside(x, t, m + 8, a, n);
    assert(trim_end(t, m + 8 + a, m + n + 9) == trim_end(t, m + 8 + a, m + n + 8));
    let b = trim_end(x, a, n);
    assert(0 <= a <= b <= n);
    assert(block_at(t, m, OutputFormat::Json) == Some((m + 8 + a, m + 8 + b)));
    assert(t.subrange(m + 8 + a, m + 8 + b) =~= x.subrange(a, b));
}

/// A JSON text with no fence in it and at least one character that is not
/// whitespace is decoded whole when it stands bare, and without its
/// surrounding whitespace when it stands in a ```` ```json ```` block.
pub proof fn lemma_fenced_payload_matches_bare(x: Seq<char>)
    requires
        has_no_fence(x),
        exists|i: int| 0 <= i < x.len() && !is_ws(#[trigger] x[i]),
    ensures
        payload("```json\n"@ + x + "\n```"@, OutputFormat::Json) == trimmed(x),
        payload(x, OutputFormat::Json) == x,
{
    lemma_bare_payload(x, OutputFormat::Json);
    let e = Seq::<char>::empty();
    assert(has_no_fence(e));
    lemma_first_json_block(e, x, e);
    assert(e + "```json\n"@ + x + "\n```"@ + e =~= "```json\n"@ + x + "\n```"@);
}

/// The rendered text of an object or array example, when no fence occurs in
/// it, is located whole: bare, and inside a ```` ```json ```` block.
pub proof fn lemma_rendered_example_located_whole(t: JsonTree)
    requires
        t is Object || t is Array,
        has_no_fence(pretty(t, 0)),
    ensures
        payload(pretty(t, 0), OutputFormat::Json) == pretty(t, 0),
        payload("```json\n"@ + pretty(t, 0) + "\n```"@, OutputFormat::Json) == pretty(t, 0),
{
    lemma_rendered_example_trimmed(t);
    lemma_fenced_payload_matches_bare(pretty(t, 0));
}

/// The rendered text of an object or array starts and ends with a bracket,
/// so trimming leaves it as it is.
pub proof fn lemma_rendered_example_trimmed(t: JsonTree)
    requires
        t is Object || t is Array,
    ensures
        pretty(t, 0).len() > 0,
        !is_ws(pretty(t, 0)[0]),
        trimmed(pretty(t, 0)) == pretty(t, 0),
{
    let x = pretty(t, 0);
    reveal_strlit("{}");
    reveal_strlit("[]");
    reveal_strlit("{\n");
    reveal_strlit("[\n");
    reveal_strlit("}");
    reveal_strlit("]");
    match t {
        JsonTree::Object(fields) => {
            if fields.len() > 0 {
                let a = "{\n"@ + crate::value::pretty_fields(fields, 2) + "\n"@ + crate::value::spaces(
                    0,
                );
                assert(x == a + "}"@);
                assert(x[0] == a[0]);
                assert(x.last() == '}');
            }
        },
        JsonTree::Array(items) => {
            if items.len() > 0 {
                let a = "[\n"@ + crate::value::pretty_items(items, 2) + "\n"@ + crate::value::spaces(
                    0,
                );
                assert(x == a + "]"@);
                assert(x[0] == a[0]);
                assert(x.last() == ']');
            }
        },
        _ => {},
    }
    assert(!is_ws(x[0]));
    assert(skip_ws(x, 0) == 0);
    assert(trim_end(x, 0, x.len() as int) == x.len());
    assert(x.subrange(0, x.len() as int) =~= x);
}

} // verus!
