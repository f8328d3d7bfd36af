//! The two scraping rules: a snippet page with phonetic and part-of-speech
//! spans, and a full page whose meta description holds the translation.
use vstd::prelude::*;

use crate::text::{
    chars_of, contains, find_from, first_match, lemma_first_match, lemma_first_match_at, occurs_at,
};

verus! {

/// Start of the meta description's value on a full dictionary page.
pub const META_OPEN: &'static str = "<meta name=\"description\" content=\"";

/// End of the meta description's value.
pub const META_CLOSE: &'static str = "\" />";

/// Start of the phonetic transcription, just inside its bracket.
pub const PHONETIC_OPEN: &'static str = "<span class=\"ht_attr\" lang=\"en-us\">[";

/// End of the phonetic transcription.
pub const PHONETIC_CLOSE: &'static str = "]";

/// Start of a part-of-speech span.
pub const POS_OPEN: &'static str = "<span class=\"ht_pos\">";

/// Between a part of speech and its translation.
pub const POS_TO_TRS: &'static str = "</span><span class=\"ht_trs\">";

/// End of a translation span.
pub const SPAN_CLOSE: &'static str = "</span>";

/// The text between the first `open` in `s` and the first `close` after it.
pub open spec fn enclosed(s: Seq<char>, open: Seq<char>, close: Seq<char>) -> Option<Seq<char>> {
    match first_match(s, open, 0) {
        None => None,
        Some(i) => match first_match(s, close, i + open.len()) {
            None => None,
            Some(j) => Some(s.subrange(i + open.len(), j)),
        },
    }
}

/// What the meta description scrape yields for a full page.
pub open spec fn meta_description(html: Seq<char>) -> Option<Seq<char>> {
    enclosed(html, META_OPEN@, META_CLOSE@)
}

/// The text of `s` between the first `open` and the first `close` after it;
/// `h` holds the characters of `s`.
fn take_enclosed(s: &str, h: &Vec<char>, open: &str, close: &str) -> (r: Option<String>)
    requires
        h@ == s@,
    ensures
        match r {
            Some(t) => enclosed(s@, open@, close@) == Some(t@),
            None => enclosed(s@, open@, close@) is None,
        },
{
    let open_chars = chars_of(open);
    let close_chars = chars_of(close);
    match find_from(h, &open_chars, 0) {
        None => None,
        Some(i) => {
            proof {
                lemma_first_match(s@, open@, 0);
                assert(occurs_at(s@, open@, i as int));
            }
            assert(i + open_chars.len() <= h.len());
            let b: usize = i + open_chars.len();
            match find_from(h, &close_chars, b) {
                None => None,
                Some(j) => {
                    proof {
                        lemma_first_match(s@, close@, b as int);
                        assert(occurs_at(s@, close@, j as int));
                    }
                    let piece = s.substring_char(b, j);
                    Some(String::from_str(piece))
                },
            }
        },
    }
}

/// The meta description scrape: the value of the page's meta description,
/// verbatim, or `None` where either of its markers is missing.
pub fn parse_bing_dict_html(html: &str) -> (r: Option<String>)
    ensures
        match r {
            Some(t) => meta_description(html@) == Some(t@),
            None => meta_description(html@) is None,
        },
{
    let h = chars_of(html);
    take_enclosed(html, &h, META_OPEN, META_CLOSE)
}

/// What the phonetic scrape yields for a snippet page.
pub open spec fn phonetic(html: Seq<char>) -> Option<Seq<char>> {
    enclosed(html, PHONETIC_OPEN@, PHONETIC_CLOSE@)
}

/// Where the pair that starts at or after `k` ends, if there is one: the
/// part of speech, the translation and the end of the closing tag.
pub open spec fn next_pair(s: Seq<char>, k: int) -> Option<(Seq<char>, Seq<char>, int)> {
    match first_match(s, POS_OPEN@, k) {
        None => None,
        Some(i) => {
            let a = i + POS_OPEN@.len();
            match first_match(s, POS_TO_TRS@, a) {
                None => None,
                Some(j) => {
                    let b = j + POS_TO_TRS@.len();
                    match first_match(s, SPAN_CLOSE@, b) {
                        None => None,
                        Some(m) => Some((s.subrange(a, j), s.subrange(b, m), m + SPAN_CLOSE@.len())),
                    }
                },
            }
        },
    }
}

/// The pairs found scanning from `k` on, each search starting where the
/// previous pair ended.
pub open spec fn pairs_from(s: Seq<char>, k: int) -> Seq<(Seq<char>, Seq<char>)>
    decreases s.len() + 1 - k,
{
    if 0 <= k <= s.len() {
        match next_pair(s, k) {
            None => Seq::empty(),
            Some(p) => if k < p.2 <= s.len() {
                seq![(p.0, p.1)] + pairs_from(s, p.2)
            } else {
                Seq::empty()
            },
        }
    } else {
        Seq::empty()
    }
}

/// All part-of-speech and translation pairs of a snippet page.
pub open spec fn pairs(html: Seq<char>) -> Seq<(Seq<char>, Seq<char>)> {
    pairs_from(html, 0)
}

/// The mark at the start of each line of a snippet translation.
pub open spec fn bullet() -> Seq<char> {
    seq!['\u{b7}', ' ']
}

/// The line that shows a phonetic transcription.
pub open spec fn phonetic_line(p: Seq<char>) -> Seq<char> {
    bullet() + seq!['['] + p + seq![']']
}

/// The line that shows a part of speech and its translation.
pub open spec fn pair_line(pos: Seq<char>, trs: Seq<char>) -> Seq<char> {
    bullet() + pos + seq![' '] + trs
}

/// The lines of a snippet translation: the phonetic line, if any, then one
/// line per pair.
pub open spec fn snippet_lines(
    ph: Option<Seq<char>>,
    ps: Seq<(Seq<char>, Seq<char>)>,
) -> Seq<Seq<char>> {
    let head = match ph {
        Some(p) => seq![phonetic_line(p)],
        None => Seq::empty(),
    };
    head + ps.map_values(|q: (Seq<char>, Seq<char>)| pair_line(q.0, q.1))
}

/// Lines joined by newlines, with none after the last.
pub open spec fn join_lines(lines: Seq<Seq<char>>) -> Seq<char>
    decreases lines.len(),
{
    if lines.len() == 0 {
        Seq::empty()
    } else if lines.len() == 1 {
        lines[0]
    } else {
        join_lines(lines.drop_last()) + seq!['\n'] + lines.last()
    }
}

/// What the snippet scrape yields: `None` where the page holds neither a
/// phonetic transcription nor a pair.
pub open spec fn snippet_text(html: Seq<char>) -> Option<Seq<char>> {
    let lines = snippet_lines(phonetic(html), pairs(html));
    if lines.len() == 0 {
        None
    } else {
        Some(join_lines(lines))
    }
}

/// Appends `line` to the text `out`, which joins `lines`; `first` tells
/// whether `lines` is empty.
fn push_line(out: &mut String, line: &str, first: bool, Ghost(lines): Ghost<Seq<Seq<char>>>)
    requires
        old(out)@ == join_lines(lines),
        first == (lines.len() == 0),
    ensures
        final(out)@ == join_lines(lines.push(line@)),
{
    proof {
        assert(lines.push(line@).drop_last() =~= lines);
        reveal_strlit("\n");
    }
    if first {
        assert(old(out)@ =~= Seq::<char>::empty());
    } else {
        out.append("\n");
    }
    out.append(line);
}

/// The pair that starts at or after `k` in `s`, and where it ends; `h`
/// holds the characters of `s`, the other vectors those of the markers.
fn find_pair(
    s: &str,
    h: &Vec<char>,
    k: usize,
    pos_open: &Vec<char>,
    pos_to_trs: &Vec<char>,
    span_close: &Vec<char>,
) -> (r: Option<(String, String, usize)>)
    requires
        h@ == s@,
        k <= h.len(),
        pos_open@ == POS_OPEN@,
        pos_to_trs@ == POS_TO_TRS@,
        span_close@ == SPAN_CLOSE@,
    ensures
        match r {
            Some(t) => next_pair(s@, k as int) == Some((t.0@, t.1@, t.2 as int)) && k < t.2
                <= s@.len(),
            None => next_pair(s@, k as int) is None,
        },
{
    match find_from(h, pos_open, k) {
        None => None,
        Some(i) => {
            proof {
                lemma_first_match(s@, POS_OPEN@, k as int);
                assert(occurs_at(s@, POS_OPEN@, i as int));
            }
            assert(i + pos_open.len() <= h.len());
            let a: usize = i + pos_open.len();
            match find_from(h, pos_to_trs, a) {
                None => None,
                Some(j) => {
                    proof {
                        lemma_first_match(s@, POS_TO_TRS@, a as int);
                        assert(occurs_at(s@, POS_TO_TRS@, j as int));
                    }
                    assert(j + pos_to_trs.len() <= h.len());
                    let b: usize = j + pos_to_trs.len();
                    match find_from(h, span_close, b) {
                        None => None,
                        Some(m) => {
                            proof {
                                lemma_first_match(s@, SPAN_CLOSE@, b as int);
                                assert(occurs_at(s@, SPAN_CLOSE@, m as int));
                                reveal_strlit("</span>");
                            }
                            assert(m + span_close.len() <= h.len());
                            let e: usize = m + span_close.len();
                            let pos = String::from_str(s.substring_char(a, j));
                            let trs = String::from_str(s.substring_char(b, m));
                            Some((pos, trs, e))
                        },
                    }
                },
            }
        },
    }
}

/// The snippet scrape: one line for the phonetic transcription, if any,
/// then one per part-of-speech and translation pair, each after a bullet;
/// `None` where the page holds neither.
pub fn parse_snippet_html(html: &str) -> (r: Option<String>)
    ensures
        match r {
            Some(t) => snippet_text(html@) == Some(t@),
            None => snippet_text(html@) is None,
        },
{
    let h = chars_of(html);
    let mut out = String::new();
    let mut first = true;
    let ghost ph = phonetic(html@);
    let ghost mut lines: Seq<Seq<char>> = Seq::empty();
    proof {
        reveal_strlit("\u{b7} [");
        reveal_strlit("]");
    }
    match take_enclosed(html, &h, PHONETIC_OPEN, PHONETIC_CLOSE) {
        Some(p) => {
            let mut line = String::from_str("\u{b7} [");
            line.append(p.as_str());
            line.append("]");
            assert(line@ =~= phonetic_line(p@));
            push_line(&mut out, line.as_str(), first, Ghost(lines));
            proof {
                lines = lines.push(line@);
            }
            first = false;
        },
        None => {},
    }
    assert(lines =~= snippet_lines(ph, Seq::empty()));
    let pos_open = chars_of(POS_OPEN);
    let pos_to_trs = chars_of(POS_TO_TRS);
    let span_close = chars_of(SPAN_CLOSE);
    let mut k: usize = 0;
    let ghost mut done: Seq<(Seq<char>, Seq<char>)> = Seq::empty();
    loop
        invariant
            h@ == html@,
            k <= h.len(),
            pos_open@ == POS_OPEN@,
            pos_to_trs@ == POS_TO_TRS@,
            span_close@ == SPAN_CLOSE@,
            ph == phonetic(html@),
            pairs(html@) == done + pairs_from(html@, k as int),
            lines == snippet_lines(ph, done),
            out@ == join_lines(lines),
            first == (lines.len() == 0),
        ensures
            pairs(html@) == done,
            lines == snippet_lines(ph, done),
            out@ == join_lines(lines),
            first == (lines.len() == 0),
        decreases h.len() - k,
    {
        match find_pair(html, &h, k, &pos_open, &pos_to_trs, &span_close) {
            None => {
                assert(done + pairs_from(html@, k as int) =~= done);
                break ;
            },
            Some(t) => {
                let (pos, trs, e) = t;
                proof {
                    reveal_strlit("\u{b7} ");
                    reveal_strlit(" ");
                }
                let mut line = String::from_str("\u{b7} ");
                line.append(pos.as_str());
                line.append(" ");
                line.append(trs.as_str());
                assert(line@ =~= pair_line(pos@, trs@));
                push_line(&mut out, line.as_str(), first, Ghost(lines));
                proof {
                    let q = (pos@, trs@);
                    assert(pairs_from(html@, k as int) == seq![q] + pairs_from(html@, e as int));
                    assert(done + pairs_from(html@, k as int) =~= done.push(q) + pairs_from(
                        html@,
                        e as int,
                    ));
                    assert(snippet_lines(ph, done.push(q)) =~= lines.push(line@));
                    lines = lines.push(line@);
                    done = done.push(q);
                }
                first = false;
                k = e;
            },
        }
    }
    if first {
        None
    } else {
        Some(out)
    }
}

/// A page that holds the description's opening marker at `i`, none before
/// it, and the closing marker at `j` after it, none in between, yields
/// exactly the text between the two markers, unchanged.
pub proof fn lemma_meta_between(html: Seq<char>, i: int, j: int)
    requires
        occurs_at(html, META_OPEN@, i),
        forall|k: int| 0 <= k < i ==> !occurs_at(html, META_OPEN@, k),
        i + META_OPEN@.len() <= j,
        occurs_at(html, META_CLOSE@, j),
        forall|k: int| i + META_OPEN@.len() <= k < j ==> !occurs_at(html, META_CLOSE@, k),
    ensures
        meta_description(html) == Some(html.subrange(i + META_OPEN@.len(), j)),
{
    lemma_first_match_at(html, META_OPEN@, 0, i);
    lemma_first_match_at(html, META_CLOSE@, i + META_OPEN@.len(), j);
}

/// A page that lacks either marker of the description yields nothing.
pub proof fn lemma_meta_missing_marker(html: Seq<char>)
    requires
        !contains(html, META_OPEN@) || !contains(html, META_CLOSE@),
    ensures
        meta_description(html) is None,
{
    lemma_first_match(html, META_OPEN@, 0);
    if let Some(i) = first_match(html, META_OPEN@, 0) {
        assert(occurs_at(html, META_OPEN@, i));
        lemma_first_match(html, META_CLOSE@, i + META_OPEN@.len());
        if let Some(j) = first_match(html, META_CLOSE@, i + META_OPEN@.len()) {
            assert(occurs_at(html, META_CLOSE@, j));
        }
    }
}

/// A snippet page with neither a phonetic span nor a part-of-speech span
/// yields nothing, not an empty text.
pub proof fn lemma_snippet_missing_spans(html: Seq<char>)
    requires
        !contains(html, PHONETIC_OPEN@),
        !contains(html, POS_OPEN@),
    ensures
        snippet_text(html) is None,
{
    lemma_first_match(html, PHONETIC_OPEN@, 0);
    lemma_first_match(html, POS_OPEN@, 0);
    if let Some(i) = first_match(html, PHONETIC_OPEN@, 0) {
        assert(occurs_at(html, PHONETIC_OPEN@, i));
    }
    if let Some(i) = first_match(html, POS_OPEN@, 0) {
        assert(occurs_at(html, POS_OPEN@, i));
    }
    assert(pairs(html) =~= Seq::empty());
    assert(snippet_lines(phonetic(html), pairs(html)) =~= Seq::empty());
}

/// A part-of-speech span followed by its translation span.
pub open spec fn pair_span(pos: Seq<char>, trs: Seq<char>) -> Seq<char> {
    POS_OPEN@ + pos + POS_TO_TRS@ + trs + SPAN_CLOSE@
}

/// The spans of the pairs `ps`, one after the other.
pub open spec fn pair_spans(ps: Seq<(Seq<char>, Seq<char>)>) -> Seq<char>
    decreases ps.len(),
{
    if ps.len() == 0 {
        Seq::empty()
    } else {
        pair_span(ps[0].0, ps[0].1) + pair_spans(ps.drop_first())
    }
}

/// No tag starts inside `s`.
pub open spec fn tag_free(s: Seq<char>) -> bool {
    forall|i: int| 0 <= i < s.len() ==> s[i] != '<'
}

/// A marker cannot start where its first character is not.
proof fn lemma_no_match_at(s: Seq<char>, pat: Seq<char>, k: int)
    requires
        0 <= k < s.len(),
        pat.len() > 0,
        s[k] != pat[0],
    ensures
        !occurs_at(s, pat, k),
{
    if occurs_at(s, pat, k) {
        assert(s.subrange(k, k + pat.len())[0] == s[k]);
    }
}

/// Pair spans with no part-of-speech marker between the scan's start and
/// them, nor after them, are read back as the pairs they were made of.
proof fn lemma_pairs_of_spans(html: Seq<char>, k: int, off: int, ps: Seq<(Seq<char>, Seq<char>)>)
    requires
        0 <= k <= off,
        off + pair_spans(ps).len() <= html.len(),
        forall|t: int| 0 <= t < pair_spans(ps).len() ==> html[off + t] == pair_spans(ps)[t],
        forall|j: int| k <= j < off ==> !occurs_at(html, POS_OPEN@, j),
        forall|j: int| off + pair_spans(ps).len() <= j ==> !occurs_at(html, POS_OPEN@, j),
        forall|q: int| 0 <= q < ps.len() ==> tag_free(ps[q].0) && tag_free(ps[q].1),
    ensures
        pairs_from(html, k) == ps,
    decreases ps.len(),
{
    reveal_strlit("<span class=\"ht_pos\">");
    reveal_strlit("</span><span class=\"ht_trs\">");
    reveal_strlit("</span>");
    if ps.len() == 0 {
        lemma_first_match(html, POS_OPEN@, k);
        if let Some(i) = first_match(html, POS_OPEN@, k) {
            assert(occurs_at(html, POS_OPEN@, i));
        }
        assert(ps =~= Seq::empty());
    } else {
        let pos = ps[0].0;
        let trs = ps[0].1;
        let rest = ps.drop_first();
        let span = pair_span(pos, trs);
        let all = pair_spans(ps);
        assert(all == span + pair_spans(rest));
        assert(all.len() == span.len() + pair_spans(rest).len());
        assert(tag_free(pos) && tag_free(trs));
        let a = off + POS_OPEN@.len();
        let j = a + pos.len();
        let b = j + POS_TO_TRS@.len();
        let m = b + trs.len();
        let e = m + SPAN_CLOSE@.len();
        assert(e == off + span.len());
        assert forall|t: int| 0 <= t < span.len() implies html[off + t] == span[t] by {
            assert(all[t] == span[t]);
        }
        assert(html.subrange(off, a) =~= POS_OPEN@) by {
            assert forall|t: int| 0 <= t < POS_OPEN@.len() implies html[off + t] == POS_OPEN@[t] by {
                assert(span[t] == POS_OPEN@[t]);
            }
        }
        lemma_first_match_at(html, POS_OPEN@, k, off);
        assert forall|t: int| 0 <= t < pos.len() implies html[a + t] == pos[t] by {
            assert(span[POS_OPEN@.len() + t] == pos[t]);
        }
        assert(html.subrange(j, b) =~= POS_TO_TRS@) by {
            assert forall|t: int| 0 <= t < POS_TO_TRS@.len() implies html[j + t] == POS_TO_TRS@[t] by {
                assert(span[POS_OPEN@.len() + pos.len() + t] == POS_TO_TRS@[t]);
            }
        }
        assert forall|t: int| a <= t < j implies !occurs_at(html, POS_TO_TRS@, t) by {
            assert(html[t] == pos[t - a]);
            lemma_no_match_at(html, POS_TO_TRS@, t);
        }
        lemma_first_match_at(html, POS_TO_TRS@, a, j);
        assert forall|t: int| 0 <= t < trs.len() implies html[b + t] == trs[t] by {
            assert(span[POS_OPEN@.len() + pos.len() + POS_TO_TRS@.len() + t] == trs[t]);
        }
        assert(html.subrange(m, e) =~= SPAN_CLOSE@) by {
            assert forall|t: int| 0 <= t < SPAN_CLOSE@.len() implies html[m + t] == SPAN_CLOSE@[t] by {
                assert(span[POS_OPEN@.len() + pos.len() + POS_TO_TRS@.len() + trs.len() + t]
                    == SPAN_CLOSE@[t]);
            }
        }
        assert forall|t: int| b <= t < m implies !occurs_at(html, SPAN_CLOSE@, t) by {
            assert(html[t] == trs[t - b]);
            lemma_no_match_at(html, SPAN_CLOSE@, t);
        }
        lemma_first_match_at(html, SPAN_CLOSE@, b, m);
        assert(html.subrange(a, j) =~= pos);
        assert(html.subrange(b, m) =~= trs);
        assert(next_pair(html, k) == Some((pos, trs, e)));
        assert forall|t: int| 0 <= t < pair_spans(rest).len() implies html[e + t]
            == pair_spans(rest)[t] by {
            assert(all[span.len() + t] == pair_spans(rest)[t]);
        }
        assert forall|q: int| 0 <= q < rest.len() implies tag_free(rest[q].0) && tag_free(
            rest[q].1,
        ) by {
            assert(rest[q] == ps[q + 1]);
        }
        lemma_pairs_of_spans(html, e, e, rest);
        assert(ps =~= seq![(pos, trs)] + rest);
    }
}

/// A snippet holding a phonetic span and then part-of-speech spans, each
/// followed by its translation span, yields one line per element, each after
/// the bullet: first the phonetic transcription in brackets, then each part
/// of speech with its translation, in the order of the page. The text before
/// holds no phonetic span, the text between and after no part-of-speech span;
/// the transcription holds no closing bracket and no text of a pair a tag.
pub proof fn lemma_snippet_fragment(
    html: Seq<char>,
    pre: Seq<char>,
    p: Seq<char>,
    rest: Seq<char>,
    ps: Seq<(Seq<char>, Seq<char>)>,
    post: Seq<char>,
)
    requires
        html == pre + PHONETIC_OPEN@ + p + PHONETIC_CLOSE@ + rest + pair_spans(ps) + post,
        forall|k: int| 0 <= k < pre.len() ==> !occurs_at(html, PHONETIC_OPEN@, k),
        forall|i: int| 0 <= i < p.len() ==> p[i] != ']',
        forall|q: int| 0 <= q < ps.len() ==> tag_free(ps[q].0) && tag_free(ps[q].1),
        forall|k: int|
            0 <= k < html.len() - post.len() - pair_spans(ps).len() ==> !occurs_at(
                html,
                POS_OPEN@,
                k,
            ),
        forall|k: int| html.len() - post.len() <= k ==> !occurs_at(html, POS_OPEN@, k),
    ensures
        snippet_text(html) == Some(join_lines(snippet_lines(Some(p), ps))),
        snippet_lines(Some(p), ps).len() == ps.len() + 1,
        snippet_lines(Some(p), ps)[0] == bullet() + seq!['['] + p + seq![']'],
        forall|q: int|
            0 <= q < ps.len() ==> snippet_lines(Some(p), ps)[q + 1] == bullet() + ps[q].0 + seq![
                ' ',
            ] + ps[q].1,
{
    reveal_strlit("]");
    let z: int = pre.len() as int;
    let o: int = z + PHONETIC_OPEN@.len();
    let c: int = o + p.len();
    assert(html.subrange(z, o) =~= PHONETIC_OPEN@);
    lemma_first_match_at(html, PHONETIC_OPEN@, 0, z);
    assert(html.subrange(c, c + 1) =~= PHONETIC_CLOSE@);
    assert forall|t: int| o <= t < c implies !occurs_at(html, PHONETIC_CLOSE@, t) by {
        assert(html[t] == p[t - o]);
        lemma_no_match_at(html, PHONETIC_CLOSE@, t);
    }
    lemma_first_match_at(html, PHONETIC_CLOSE@, o, c);
    assert(html.subrange(o, c) =~= p);
    assert(phonetic(html) == Some(p));
    let spans = pair_spans(ps);
    let off: int = html.len() - post.len() - spans.len();
    assert forall|t: int| 0 <= t < spans.len() implies html[off + t] == spans[t] by {}
    lemma_pairs_of_spans(html, 0, off, ps);
}

} // verus!
