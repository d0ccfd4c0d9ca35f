//! Reader for the `<AutoSplitterSettings>` XML of a LiveSplit `.lss` file:
//! the text of every `<tag>..</tag>` element, and the five predefined XML
//! entities.
use vstd::prelude::*;
use crate::text::{
    extend_chars, find, find_chars_from, find_from, from_chars, lemma_find_from, occurs_at,
    occurs_at_exec, slice_chars, to_chars,
};

verus! {

/// The key under which the host stores the inner XML of the splits file's
/// `<AutoSplitterSettings>`.
pub fn settings_key() -> (r: &'static str)
    ensures
        r@ == "autosplitter_settings"@,
{
    "autosplitter_settings"
}

/// `pat` is a prefix of `s`.
pub open spec fn starts_with(s: Seq<char>, pat: Seq<char>) -> bool {
    pat.len() <= s.len() && s.take(pat.len() as int) == pat
}

pub open spec fn amp_entity() -> Seq<char> {
    seq!['&', 'a', 'm', 'p', ';']
}

pub open spec fn lt_entity() -> Seq<char> {
    seq!['&', 'l', 't', ';']
}

pub open spec fn gt_entity() -> Seq<char> {
    seq!['&', 'g', 't', ';']
}

pub open spec fn quot_entity() -> Seq<char> {
    seq!['&', 'q', 'u', 'o', 't', ';']
}

pub open spec fn apos_entity() -> Seq<char> {
    seq!['&', 'a', 'p', 'o', 's', ';']
}

/// The char that the entity at the start of `s` stands for, and how many
/// chars it spans.  An `&` that starts no known entity stands for itself.
pub open spec fn entity_at(s: Seq<char>) -> (char, int) {
    if starts_with(s, amp_entity()) {
        ('&', 5)
    } else if starts_with(s, lt_entity()) {
        ('<', 4)
    } else if starts_with(s, gt_entity()) {
        ('>', 4)
    } else if starts_with(s, quot_entity()) {
        ('"', 6)
    } else if starts_with(s, apos_entity()) {
        ('\'', 6)
    } else {
        ('&', 1)
    }
}

/// `s` with `&amp;`, `&lt;`, `&gt;`, `&quot;` and `&apos;` replaced by the
/// chars they stand for, each replacement made once, left to right.
pub open spec fn unescape(s: Seq<char>) -> Seq<char>
    decreases s.len(),
{
    if s.len() == 0 {
        seq![]
    } else if s[0] == '&' {
        let (c, n) = entity_at(s);
        seq![c] + unescape(s.skip(n))
    } else {
        seq![s[0]] + unescape(s.drop_first())
    }
}

/// Text without an `&` comes out of unescaping unchanged.
pub proof fn law_unescape_plain(s: Seq<char>)
    requires
        !s.contains('&'),
    ensures
        unescape(s) == s,
    decreases s.len(),
{
    if s.len() > 0 {
        assert(s[0] != '&');
        let t = s.drop_first();
        assert(!t.contains('&')) by {
            if t.contains('&') {
                let i = choose|i: int| 0 <= i < t.len() && t[i] == '&';
                assert(s[i + 1] == '&');
            }
        }
        law_unescape_plain(t);
        assert(seq![s[0]] + t =~= s);
    }
}

/// Unescaping never makes a text longer: each entity becomes one char.
pub proof fn law_unescape_shrinks(s: Seq<char>)
    ensures
        unescape(s).len() <= s.len(),
    decreases s.len(),
{
    if s.len() > 0 {
        if s[0] == '&' {
            law_unescape_shrinks(s.skip(entity_at(s).1));
        } else {
            law_unescape_shrinks(s.drop_first());
        }
    }
}

fn entity_at_exec(s: &[char], i: usize) -> (r: (char, usize))
    requires
        i < s@.len(),
        s@[i as int] == '&',
    ensures
        r.0 == entity_at(s@.skip(i as int)).0,
        r.1 == entity_at(s@.skip(i as int)).1,
{
    let ghost rest = s@.skip(i as int);
    let amp: [char; 5] = ['&', 'a', 'm', 'p', ';'];
    let lt: [char; 4] = ['&', 'l', 't', ';'];
    let gt: [char; 4] = ['&', 'g', 't', ';'];
    let quot: [char; 6] = ['&', 'q', 'u', 'o', 't', ';'];
    let apos: [char; 6] = ['&', 'a', 'p', 'o', 's', ';'];
    proof {
        assert(amp@ =~= amp_entity());
        assert(lt@ =~= lt_entity());
        assert(gt@ =~= gt_entity());
        assert(quot@ =~= quot_entity());
        assert(apos@ =~= apos_entity());
        assert forall|p: Seq<char>| p.len() > 0 implies occurs_at(s@, p, i as int) == starts_with(rest, p) by {
            if i + p.len() <= s@.len() {
                assert(s@.subrange(i as int, i + p.len()) =~= rest.take(p.len() as int));
            }
        }
    }
    if occurs_at_exec(s, amp.as_slice(), i) {
        ('&', 5)
    } else if occurs_at_exec(s, lt.as_slice(), i) {
        ('<', 4)
    } else if occurs_at_exec(s, gt.as_slice(), i) {
        ('>', 4)
    } else if occurs_at_exec(s, quot.as_slice(), i) {
        ('"', 6)
    } else if occurs_at_exec(s, apos.as_slice(), i) {
        ('\'', 6)
    } else {
        ('&', 1)
    }
}

/// Replaces the five predefined XML entities in `s` by the chars they stand
/// for.
pub fn xml_unescape(s: &str) -> (r: String)
    ensures
        r@ == unescape(s@),
{
    let cs = to_chars(s);
    let n = cs.len();
    let mut out: Vec<char> = Vec::new();
    let mut i: usize = 0;
    assert(cs@.skip(0) =~= cs@);
    while i < n
        invariant
            n == cs@.len(),
            i <= n,
            out@ + unescape(cs@.skip(i as int)) == unescape(cs@),
        decreases n - i,
    {
        let ghost rest = cs@.skip(i as int);
        if cs[i] == '&' {
            let (c, len) = entity_at_exec(cs.as_slice(), i);
            proof {
                assert(rest[0] == '&');
                assert(unescape(rest) == seq![c] + unescape(rest.skip(len as int)));
                assert(rest.skip(len as int) =~= cs@.skip(i + len));
                assert(out@.push(c) + unescape(cs@.skip(i + len)) =~= out@ + unescape(rest));
            }
            out.push(c);
            i = i + len;
        } else {
            let c = cs[i];
            proof {
                assert(rest[0] == c);
                assert(rest.drop_first() =~= cs@.skip(i + 1));
                assert(out@.push(c) + unescape(cs@.skip(i + 1)) =~= out@ + unescape(rest));
            }
            out.push(c);
            i = i + 1;
        }
    }
    assert(cs@.skip(n as int) =~= Seq::<char>::empty());
    assert(out@ + unescape(cs@.skip(n as int)) =~= out@);
    from_chars(out.as_slice())
}

/// `<tag>`
pub open spec fn open_tag(tag: Seq<char>) -> Seq<char> {
    seq!['<'] + tag + seq!['>']
}

/// `</tag>`
pub open spec fn close_tag(tag: Seq<char>) -> Seq<char> {
    seq!['<', '/'] + tag + seq!['>']
}

/// The texts between each `open` and the first `close` after it, left to
/// right; the search stops at the first `open` that has no `close` after it.
pub open spec fn texts_between(s: Seq<char>, open: Seq<char>, close: Seq<char>) -> Seq<Seq<char>>
    decreases s.len(),
{
    if open.len() == 0 {
        seq![]
    } else {
        match find(s, open) {
            None => seq![],
            Some(a) => {
                let start = a + open.len();
                match find(s.skip(start), close) {
                    None => seq![],
                    Some(len) => {
                        proof {
                            lemma_find_from(s, open, 0);
                            lemma_find_from(s.skip(start), close, 0);
                        }
                        seq![s.subrange(start, start + len)] + texts_between(
                            s.skip(start + len + close.len()),
                            open,
                            close,
                        )
                    },
                }
            },
        }
    }
}

/// The text of every `<tag>..</tag>` element of `xml`, in document order.
pub open spec fn xml_texts_spec(xml: Seq<char>, tag: Seq<char>) -> Seq<Seq<char>> {
    texts_between(xml, open_tag(tag), close_tag(tag))
}

/// There are never more texts than chars in the searched text.
pub proof fn lemma_texts_len(s: Seq<char>, open: Seq<char>, close: Seq<char>)
    ensures
        texts_between(s, open, close).len() <= s.len(),
    decreases s.len(),
{
    if open.len() > 0 {
        if let Some(a) = find(s, open) {
            let start = a + open.len();
            lemma_find_from(s, open, 0);
            if let Some(len) = find(s.skip(start), close) {
                lemma_find_from(s.skip(start), close, 0);
                lemma_texts_len(s.skip(start + len + close.len()), open, close);
            }
        }
    }
}

/// Searching from `p + i` in `s` is searching from `i` in `s.skip(p)`.
proof fn lemma_find_from_skip(s: Seq<char>, pat: Seq<char>, p: int, i: int)
    requires
        0 <= p <= s.len(),
        0 <= i,
    ensures
        find_from(s, pat, p + i) == (match find_from(s.skip(p), pat, i) {
            Some(k) => Some(k + p),
            None => None,
        }),
    decreases s.len() + 1 - (p + i),
{
    let t = s.skip(p);
    if p + i + pat.len() > s.len() {
    } else {
        assert(t.subrange(i, i + pat.len()) =~= s.subrange(p + i, p + i + pat.len()));
        if s.subrange(p + i, p + i + pat.len()) != pat {
            lemma_find_from_skip(s, pat, p, i + 1);
        }
    }
}

fn tag_chars(tag: &[char], closing: bool) -> (r: Vec<char>)
    ensures
        r@ == (if closing {
            close_tag(tag@)
        } else {
            open_tag(tag@)
        }),
{
    let mut r: Vec<char> = Vec::new();
    r.push('<');
    if closing {
        r.push('/');
    }
    extend_chars(&mut r, tag);
    r.push('>');
    proof {
        if closing {
            assert(r@ =~= close_tag(tag@));
        } else {
            assert(r@ =~= open_tag(tag@));
        }
    }
    r
}

/// The text of every `<tag>..</tag>` element of `xml`, in document order.
pub fn xml_texts(xml: &str, tag: &str) -> (r: Vec<String>)
    ensures
        r@.map_values(|t: String| t@) == xml_texts_spec(xml@, tag@),
{
    let s = to_chars(xml);
    let t = to_chars(tag);
    let open = tag_chars(t.as_slice(), false);
    let close = tag_chars(t.as_slice(), true);
    let ghost open_s = open@;
    let ghost close_s = close@;
    assert(open_s == open_tag(tag@));
    assert(close_s == close_tag(tag@));
    let n = s.len();
    let mut out: Vec<String> = Vec::new();
    let mut pos: usize = 0;
    assert(s@.skip(0) =~= s@);
    loop
        invariant
            n == s@.len(),
            pos <= n,
            open@ == open_s,
            close@ == close_s,
            open_s.len() > 0,
            s@ == xml@,
            open_s == open_tag(tag@),
            close_s == close_tag(tag@),
            out@.map_values(|t: String| t@) + texts_between(s@.skip(pos as int), open_s, close_s)
                == texts_between(s@, open_s, close_s),
        decreases n - pos,
    {
        let ghost rest = s@.skip(pos as int);
        let ghost before = out@.map_values(|t: String| t@);
        proof {
            lemma_find_from_skip(s@, open_s, pos as int, 0);
        }
        let a = match find_chars_from(s.as_slice(), open.as_slice(), pos) {
            Some(a) => a,
            None => {
                assert(find(rest, open_s) is None);
                assert(before + texts_between(rest, open_s, close_s) =~= before);
                return out;
            },
        };
        proof {
            lemma_find_from(s@, open_s, pos as int);
            assert(find(rest, open_s) == Some(a - pos));
        }
        let start = a + open.len();
        proof {
            lemma_find_from_skip(s@, close_s, start as int, 0);
            assert(rest.skip(a - pos + open_s.len()) =~= s@.skip(start as int));
        }
        let e = match find_chars_from(s.as_slice(), close.as_slice(), start) {
            Some(e) => e,
            None => {
                assert(before + texts_between(rest, open_s, close_s) =~= before);
                return out;
            },
        };
        proof {
            lemma_find_from(s@, close_s, start as int);
            assert(find(s@.skip(start as int), close_s) == Some(e - start));
        }
        let text = from_chars(slice_chars(s.as_slice(), start, e).as_slice());
        let next = e + close.len();
        proof {
            assert(rest.subrange(a - pos + open_s.len(), a - pos + open_s.len() + (e - start))
                =~= s@.subrange(start as int, e as int));
            assert(rest.skip(a - pos + open_s.len() + (e - start) + close_s.len()) =~= s@.skip(
                next as int,
            ));
        }
        out.push(text);
        proof {
            let after = out@.map_values(|t: String| t@);
            assert(after =~= before.push(s@.subrange(start as int, e as int)));
            assert(after + texts_between(s@.skip(next as int), open_s, close_s) =~= before
                + texts_between(rest, open_s, close_s));
        }
        pos = next;
    }
}

} // verus!
