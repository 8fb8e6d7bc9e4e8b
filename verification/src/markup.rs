//! Notification body markup: line breaks, HTML-style `<a href>` links and
//! bare URLs become a list of nodes that the widget renders.
use vstd::prelude::*;
use vstd::utf8::*;
use vstd::string::StringSliceAdditionalSpecFns;
use vstd::string::StrSliceExecFns;
use crate::text::{
    between, byte_len, lemma_between_all, lemma_between_bytes, lemma_between_concat, on_boundary,
    push_char, str_byte_len, substring,
};

verus! {

broadcast use vstd::utf8::encode_utf8_decode_utf8, vstd::utf8::encode_utf8_valid_utf8,
    crate::text::lemma_start_boundary, crate::text::lemma_end_boundary;

/// The pattern of an HTML-style link; group 1 is the URL, group 2 the text.
pub open spec fn link_pattern() -> Seq<char> {
    "<a\\s+href=[\"']([^\"']+)[\"']>([^<]+)</a>"@
}

/// The pattern of a bare URL.
pub open spec fn url_pattern() -> Seq<char> {
    "(https?://[^\\s]+)"@
}

/// The byte spans of the capture groups of the leftmost-first match of
/// `pattern` in `text` (group 0 is the whole match); `None` when nothing
/// matches or the pattern does not compile.
pub uninterp spec fn first_captures(pattern: Seq<char>, text: Seq<char>) -> Option<
    Seq<Option<(usize, usize)>>,
>;

/// The byte spans of the successive non-overlapping matches of `pattern` in
/// `text`; empty when the pattern does not compile.
pub uninterp spec fn all_matches(pattern: Seq<char>, text: Seq<char>) -> Seq<(usize, usize)>;

/// A byte span of `text` that starts and ends on character boundaries.
pub open spec fn span_ok(text: Seq<char>, s: int, e: int) -> bool {
    0 <= s <= e <= byte_len(text) && on_boundary(text, s) && on_boundary(text, e)
}

/// The capture spans of the first match of `pattern` in `text`
/// (`regex::Regex::new` then `Regex::captures`, each group read with
/// `Captures::get`). Offsets are byte offsets that regex guarantees to lie on
/// character boundaries, with `start <= end`; group 0 is always present.
#[verifier::external_body]
fn regex_captures(pattern: &str, text: &str) -> (r: Option<Vec<Option<(usize, usize)>>>)
    ensures
        match r {
            None => first_captures(pattern@, text@) is None,
            Some(v) => first_captures(pattern@, text@) == Some(v@),
        },
        r matches Some(v) ==> v.len() >= 1 && v[0] is Some,
        r matches Some(v) ==> forall|i: int|
            0 <= i < v.len() && #[trigger] v[i] is Some ==> span_ok(
                text@,
                (v[i]->0).0 as int,
                (v[i]->0).1 as int,
            ),
{
    let re = regex::Regex::new(pattern).ok()?;
    let caps = re.captures(text)?;
    let mut v = Vec::new();
    for i in 0..caps.len() {
        v.push(caps.get(i).map(|m| (m.start(), m.end())));
    }
    Some(v)
}

/// The spans of all successive non-overlapping matches of `pattern` in
/// `text` (`regex::Regex::new` then `Regex::find_iter`). Each span lies on
/// character boundaries and each match ends before the next one starts.
#[verifier::external_body]
fn regex_find_all(pattern: &str, text: &str) -> (r: Vec<(usize, usize)>)
    ensures
        r@ == all_matches(pattern@, text@),
        forall|i: int| 0 <= i < r.len() ==> span_ok(text@, #[trigger] r[i].0 as int, r[i].1 as int),
        forall|i: int, j: int| 0 <= i < j < r.len() ==> #[trigger] r[i].1 <= #[trigger] r[j].0,
{
    let mut v = Vec::new();
    if let Ok(re) = regex::Regex::new(pattern) {
        for m in re.find_iter(text) {
            v.push((m.start(), m.end()));
        }
    }
    v
}

/// A piece of parsed markup.
pub enum MarkupNode {
    Text(String),
    Link { text: String, url: String },
    LineBreak,
}

/// The mathematical value of a [`MarkupNode`].
pub enum MarkupView {
    Text(Seq<char>),
    Link { text: Seq<char>, url: Seq<char> },
    LineBreak,
}

impl View for MarkupNode {
    type V = MarkupView;

    open spec fn view(&self) -> MarkupView {
        match self {
            MarkupNode::Text(t) => MarkupView::Text(t@),
            MarkupNode::Link { text, url } => MarkupView::Link { text: text@, url: url@ },
            MarkupNode::LineBreak => MarkupView::LineBreak,
        }
    }
}

/// The values of a list of nodes.
pub open spec fn views(nodes: Seq<MarkupNode>) -> Seq<MarkupView> {
    nodes.map_values(|n: MarkupNode| n@)
}

/// The text a node shows (a line break shows as '\n').
pub open spec fn node_text(n: MarkupView) -> Seq<char> {
    match n {
        MarkupView::Text(t) => t,
        MarkupView::Link { text, .. } => text,
        MarkupView::LineBreak => "\n"@,
    }
}

/// The text of a list of nodes, one after another.
pub open spec fn text_of(nodes: Seq<MarkupView>) -> Seq<char>
    decreases nodes.len(),
{
    if nodes.len() == 0 {
        Seq::empty()
    } else {
        text_of(nodes.drop_last()) + node_text(nodes.last())
    }
}

proof fn lemma_text_of_push(nodes: Seq<MarkupView>, n: MarkupView)
    ensures
        text_of(nodes.push(n)) == text_of(nodes) + node_text(n),
{
    assert(nodes.push(n).drop_last() =~= nodes);
}

/// The nodes for the text from byte `last` on, given the URL spans that
/// remain: plain text between URLs, each URL as a link to itself.
pub open spec fn url_nodes_from(text: Seq<char>, spans: Seq<(usize, usize)>, last: int) -> Seq<
    MarkupView,
>
    decreases spans.len(),
{
    if spans.len() == 0 {
        let rest = between(text, last, byte_len(text));
        if last < byte_len(text) && rest.len() > 0 {
            seq![MarkupView::Text(rest)]
        } else {
            Seq::empty()
        }
    } else {
        let s = spans[0].0 as int;
        let e = spans[0].1 as int;
        let before = between(text, last, s);
        let url = between(text, s, e);
        (if before.len() > 0 {
            seq![MarkupView::Text(before)]
        } else {
            Seq::empty()
        }) + seq![MarkupView::Link { text: url, url: url }] + url_nodes_from(
            text,
            spans.drop_first(),
            e,
        )
    }
}

/// The nodes of a plain text in which bare URLs become links.
pub open spec fn url_nodes(text: Seq<char>) -> Seq<MarkupView> {
    let nodes = url_nodes_from(text, all_matches(url_pattern(), text), 0);
    if nodes.len() == 0 && text.len() > 0 {
        seq![MarkupView::Text(text)]
    } else {
        nodes
    }
}

proof fn lemma_url_nodes_step(text: Seq<char>, spans: Seq<(usize, usize)>, i: int, last: int)
    requires
        0 <= i < spans.len(),
    ensures
        url_nodes_from(text, spans.subrange(i, spans.len() as int), last) == (if between(
            text,
            last,
            spans[i].0 as int,
        ).len() > 0 {
            seq![MarkupView::Text(between(text, last, spans[i].0 as int))]
        } else {
            Seq::<MarkupView>::empty()
        }) + seq![
            MarkupView::Link {
                text: between(text, spans[i].0 as int, spans[i].1 as int),
                url: between(text, spans[i].0 as int, spans[i].1 as int),
            },
        ] + url_nodes_from(text, spans.subrange(i + 1, spans.len() as int), spans[i].1 as int),
{
    assert(spans.subrange(i, spans.len() as int).drop_first() =~= spans.subrange(
        i + 1,
        spans.len() as int,
    ));
}

/// Splits plain text into text and link nodes at each bare `http://` or
/// `https://` URL (which runs to the next white space).
pub fn parse_urls_in_text(text: &str) -> (r: Vec<MarkupNode>)
    ensures
        views(r@) == url_nodes(text@),
        text_of(views(r@)) == text@,
{
    let spans = regex_find_all("(https?://[^\\s]+)", text);
    let ghost all = spans@;
    let mut nodes: Vec<MarkupNode> = Vec::new();
    let mut last: usize = 0;
    let mut i: usize = 0;
    let len = str_byte_len(text);
    assert(all.subrange(0, all.len() as int) =~= all);
    assert(views(nodes@) + url_nodes_from(text@, all, 0) =~= url_nodes_from(text@, all, 0));
    while i < spans.len()
        invariant
            all == spans@,
            len == byte_len(text@),
            i <= spans.len(),
            forall|k: int| 0 <= k < spans.len() ==> span_ok(text@, #[trigger] spans[k].0 as int, spans[k].1 as int),
            forall|a: int, b: int| 0 <= a < b < spans.len() ==> #[trigger] spans[a].1 <= #[trigger] spans[b].0,
            i == 0 ==> last == 0,
            i > 0 ==> last == spans[i - 1].1,
            last <= len,
            on_boundary(text@, last as int),
            views(nodes@) + url_nodes_from(text@, all.subrange(i as int, all.len() as int), last as int)
                == url_nodes_from(text@, all, 0),
            text_of(views(nodes@)) == between(text@, 0, last as int),
        decreases spans.len() - i,
    {
        let (s, e) = spans[i];
        proof {
            lemma_url_nodes_step(text@, all, i as int, last as int);
            if i > 0 {
                assert(spans[i - 1].1 <= spans[i as int].0);
            }
        }
        let before = substring(text, last, s);
        let ghost old_nodes = views(nodes@);
        proof {
            lemma_between_concat(text@, 0, last as int, s as int);
            lemma_between_concat(text@, 0, s as int, e as int);
        }
        if !before.as_str().is_empty() {
            let ghost b = before@;
            nodes.push(MarkupNode::Text(before));
            proof {
                lemma_text_of_push(old_nodes, MarkupView::Text(b));
                assert(views(nodes@) =~= old_nodes.push(MarkupView::Text(b)));
            }
        } else {
            assert(between(text@, 0, last as int) + between(text@, last as int, s as int) =~= between(
                text@,
                0,
                last as int,
            ));
        }
        let ghost mid = views(nodes@);
        let url = substring(text, s, e);
        let url_text = substring(text, s, e);
        let ghost u = url@;
        nodes.push(MarkupNode::Link { text: url_text, url });
        proof {
            lemma_text_of_push(mid, MarkupView::Link { text: u, url: u });
            assert(views(nodes@) =~= mid.push(MarkupView::Link { text: u, url: u }));
        }
        proof {
            let b = between(text@, last as int, s as int);
            let u = between(text@, s as int, e as int);
            let pre = if b.len() > 0 { seq![MarkupView::Text(b)] } else { Seq::<MarkupView>::empty() };
            assert(views(nodes@) =~= old_nodes + pre + seq![MarkupView::Link { text: u, url: u }]);
        }
        last = e;
        i = i + 1;
    }
    assert(all.subrange(i as int, all.len() as int) =~= Seq::<(usize, usize)>::empty());
    proof {
        lemma_between_concat(text@, 0, last as int, len as int);
        lemma_between_all(text@);
    }
    if last < len {
        let rest = substring(text, last, len);
        if !rest.as_str().is_empty() {
            let ghost old_nodes = views(nodes@);
            let ghost rv = rest@;
            nodes.push(MarkupNode::Text(rest));
            assert(views(nodes@) =~= old_nodes + seq![MarkupView::Text(between(text@, last as int, len as int))]);
            proof {
                lemma_text_of_push(old_nodes, MarkupView::Text(rv));
                assert(views(nodes@) =~= old_nodes.push(MarkupView::Text(rv)));
            }
        } else {
            assert(between(text@, 0, last as int) + between(text@, last as int, len as int) =~= between(
                text@,
                0,
                last as int,
            ));
        }
    } else {
        assert(between(text@, last as int, len as int) =~= Seq::<char>::empty());
        assert(between(text@, 0, last as int) + Seq::<char>::empty() =~= between(text@, 0, last as int));
    }
    assert(views(nodes@) =~= url_nodes_from(text@, all, 0));
    if nodes.len() == 0 && !text.is_empty() {
        nodes.push(MarkupNode::Text(text.to_owned()));
        assert(views(nodes@) =~= seq![MarkupView::Text(text@)]);
        proof {
            lemma_text_of_push(Seq::empty(), MarkupView::Text(text@));
            assert(Seq::<MarkupView>::empty().push(MarkupView::Text(text@)) =~= views(nodes@));
            assert(Seq::<char>::empty() + text@ =~= text@);
        }
    }
    nodes
}


/// The index of the first `c` in `s`, or `s.len()` when there is none.
pub open spec fn first_index(s: Seq<char>, c: char) -> nat
    decreases s.len(),
{
    if s.len() == 0 {
        0
    } else if s[0] == c {
        0
    } else {
        1 + first_index(s.drop_first(), c)
    }
}

proof fn lemma_first_index(s: Seq<char>, c: char)
    ensures
        first_index(s, c) <= s.len(),
        first_index(s, c) < s.len() ==> s[first_index(s, c) as int] == c,
        forall|j: int| 0 <= j < first_index(s, c) ==> s[j] != c,
    decreases s.len(),
{
    if s.len() > 0 && s[0] != c {
        lemma_first_index(s.drop_first(), c);
        assert forall|j: int| 0 <= j < first_index(s, c) implies s[j] != c by {
            if j > 0 {
                assert(s[j] == s.drop_first()[j - 1]);
            }
        }
    }
}

proof fn lemma_first_index_prefix(cur: Seq<char>, rest: Seq<char>, c: char)
    requires
        forall|j: int| 0 <= j < cur.len() ==> cur[j] != c,
    ensures
        first_index(cur + rest, c) == cur.len() + first_index(rest, c),
    decreases cur.len(),
{
    if cur.len() > 0 {
        assert((cur + rest).drop_first() =~= cur.drop_first() + rest);
        lemma_first_index_prefix(cur.drop_first(), rest, c);
    } else {
        assert(cur + rest =~= rest);
    }
}

/// The lines of `s`, split at each '\n' (`str::split('\n')`): one more line
/// than there are line breaks.
pub open spec fn split_lines(s: Seq<char>) -> Seq<Seq<char>>
    decreases s.len(),
{
    let k = first_index(s, '\n');
    if k >= s.len() {
        seq![s]
    } else {
        seq![s.take(k as int)] + split_lines(s.skip(k + 1 as int))
    }
}

fn split_lines_exec(s: &str) -> (r: Vec<String>)
    ensures
        r@.map_values(|l: String| l@) == split_lines(s@),
{
    let n = s.unicode_len();
    let mut lines: Vec<String> = Vec::new();
    let mut cur = String::new();
    let mut i: usize = 0;
    assert(cur@ + s@.skip(0) =~= s@);
    assert(lines@.map_values(|l: String| l@) + split_lines(s@) =~= split_lines(s@));
    while i < n
        invariant
            n == s@.len(),
            i <= n,
            forall|j: int| 0 <= j < cur@.len() ==> cur@[j] != '\n',
            lines@.map_values(|l: String| l@) + split_lines(cur@ + s@.skip(i as int)) == split_lines(s@),
        decreases n - i,
    {
        let c = s.get_char(i);
        let ghost rest = s@.skip(i as int);
        let ghost old_lines = lines@.map_values(|l: String| l@);
        proof {
            lemma_first_index_prefix(cur@, rest, '\n');
            assert(rest[0] == c);
        }
        if c == '\n' {
            proof {
                assert(first_index(rest, '\n') == 0);
                let whole = cur@ + rest;
                assert(whole.take(cur@.len() as int) =~= cur@);
                assert(whole.skip(cur@.len() as int + 1) =~= s@.skip(i + 1));
                assert(Seq::<char>::empty() + s@.skip(i + 1) =~= s@.skip(i + 1));
            }
            let ghost done = cur@;
            lines.push(cur);
            cur = String::new();
            assert(lines@.map_values(|l: String| l@) =~= old_lines.push(done));
            assert(old_lines.push(done) + split_lines(s@.skip(i + 1)) =~= old_lines + split_lines(done + rest));
        } else {
            let ghost old_cur = cur@;
            push_char(&mut cur, c);
            proof {
                assert(old_cur + rest =~= cur@ + s@.skip(i + 1));
            }
        }
        i = i + 1;
    }
    proof {
        lemma_first_index_prefix(cur@, Seq::<char>::empty(), '\n');
        assert(cur@ + s@.skip(n as int) =~= cur@);
        assert(split_lines(cur@) == seq![cur@]);
    }
    let ghost old_lines = lines@.map_values(|l: String| l@);
    lines.push(cur);
    assert(lines@.map_values(|l: String| l@) =~= old_lines + seq![cur@]);
    lines
}

/// The spans `(start, end, url_start, url_end, text_start, text_end)` of the
/// first HTML-style link in `rem`, when the match and both groups are there.
pub open spec fn link_at(rem: Seq<char>) -> Option<(int, int, int, int, int, int)> {
    match first_captures(link_pattern(), rem) {
        Some(g) => if g.len() >= 3 && g[0] is Some && g[1] is Some && g[2] is Some {
            let (s, e) = g[0]->0;
            let (us, ue) = g[1]->0;
            let (ts, te) = g[2]->0;
            if span_ok(rem, s as int, e as int) && span_ok(rem, us as int, ue as int) && span_ok(
                rem,
                ts as int,
                te as int,
            ) && e > 0 {
                Some((s as int, e as int, us as int, ue as int, ts as int, te as int))
            } else {
                None
            }
        } else {
            None
        },
        None => None,
    }
}

/// The nodes of one line: each HTML-style link in turn, with the text before
/// it split at bare URLs, and the text after the last link split likewise.
pub open spec fn line_nodes(rem: Seq<char>) -> Seq<MarkupView>
    decreases byte_len(rem),
{
    if rem.len() == 0 {
        Seq::empty()
    } else {
        match link_at(rem) {
            Some((s, e, us, ue, ts, te)) => {
                let before = between(rem, 0, s);
                proof {
                    lemma_between_bytes(rem, e, byte_len(rem));
                }
                (if before.len() > 0 {
                    url_nodes(before)
                } else {
                    Seq::empty()
                }) + seq![MarkupView::Link { text: between(rem, ts, te), url: between(rem, us, ue) }]
                    + line_nodes(between(rem, e, byte_len(rem)))
            },
            None => url_nodes(rem),
        }
    }
}

/// The nodes of a whole text: the nodes of each line, with a line break
/// between consecutive lines.
pub open spec fn lines_nodes(lines: Seq<Seq<char>>) -> Seq<MarkupView>
    decreases lines.len(),
{
    if lines.len() == 0 {
        Seq::empty()
    } else {
        lines_nodes(lines.drop_last()) + (if lines.len() > 1 {
            seq![MarkupView::LineBreak]
        } else {
            Seq::empty()
        }) + line_nodes(lines.last())
    }
}

/// The nodes `parse_markup` makes of a text.
pub open spec fn markup_nodes(input: Seq<char>) -> Seq<MarkupView> {
    lines_nodes(split_lines(input))
}

fn find_link(text: &str) -> (r: Option<(usize, usize, usize, usize, usize, usize)>)
    ensures
        match r {
            Some((s, e, us, ue, ts, te)) => link_at(text@) == Some(
                (s as int, e as int, us as int, ue as int, ts as int, te as int),
            ),
            None => link_at(text@) is None,
        },
{
    let caps = regex_captures("<a\\s+href=[\"']([^\"']+)[\"']>([^<]+)</a>", text);
    match caps {
        Some(g) => {
            if g.len() >= 3 {
                match (g[0], g[1], g[2]) {
                    (Some((s, e)), Some((us, ue)), Some((ts, te))) => {
                        proof {
                            assert(g@[0] is Some && g@[1] is Some && g@[2] is Some);
                        }
                        if e > 0 {
                            Some((s, e, us, ue, ts, te))
                        } else {
                            None
                        }
                    },
                    _ => None,
                }
            } else {
                None
            }
        },
        None => None,
    }
}

fn parse_line(line: &str) -> (r: Vec<MarkupNode>)
    ensures
        views(r@) == line_nodes(line@),
{
    let mut remaining: String = line.to_owned();
    let mut nodes: Vec<MarkupNode> = Vec::new();
    assert(views(nodes@) + line_nodes(remaining@) =~= line_nodes(line@));
    loop
        invariant_except_break
            views(nodes@) + line_nodes(remaining@) == line_nodes(line@),
        ensures
            views(nodes@) == line_nodes(line@),
        decreases byte_len(remaining@),
    {
        if remaining.as_str().is_empty() {
            assert(views(nodes@) =~= line_nodes(line@));
            break ;
        }
        let ghost rem = remaining@;
        let ghost old_nodes = views(nodes@);
        match find_link(remaining.as_str()) {
            Some((s, e, us, ue, ts, te)) => {
                let len = str_byte_len(remaining.as_str());
                let before = substring(remaining.as_str(), 0, s);
                let ghost pre = if before@.len() > 0 {
                    url_nodes(before@)
                } else {
                    Seq::<MarkupView>::empty()
                };
                if !before.as_str().is_empty() {
                    let mut more = parse_urls_in_text(before.as_str());
                    proof {
                        assert(views(nodes@ + more@) =~= views(nodes@) + views(more@));
                    }
                    nodes.append(&mut more);
                }
                let text = substring(remaining.as_str(), ts, te);
                let url = substring(remaining.as_str(), us, ue);
                let ghost link = MarkupView::Link { text: text@, url: url@ };
                nodes.push(MarkupNode::Link { text, url });
                assert(views(nodes@) =~= old_nodes + pre + seq![link]);
                proof {
                    lemma_between_bytes(rem, e as int, len as int);
                }
                remaining = substring(remaining.as_str(), e, len);
            },
            None => {
                let mut more = parse_urls_in_text(remaining.as_str());
                proof {
                    assert(views(nodes@ + more@) =~= views(nodes@) + views(more@));
                }
                nodes.append(&mut more);
                break ;
            },
        }
    }
    nodes
}

/// Parses notification markup: the text is split at line breaks (each
/// becoming a `LineBreak` node), HTML-style `<a href="url">text</a>` links
/// become links with their text, and bare URLs in the remaining text become
/// links to themselves.
pub fn parse_markup(input: &str) -> (r: Vec<MarkupNode>)
    ensures
        views(r@) == markup_nodes(input@),
{
    let lines = split_lines_exec(input);
    let ghost ls = lines@.map_values(|l: String| l@);
    let mut nodes: Vec<MarkupNode> = Vec::new();
    let mut idx: usize = 0;
    assert(ls.take(0) =~= Seq::<Seq<char>>::empty());
    while idx < lines.len()
        invariant
            ls == lines@.map_values(|l: String| l@),
            idx <= lines.len(),
            views(nodes@) == lines_nodes(ls.take(idx as int)),
        decreases lines.len() - idx,
    {
        let ghost old_nodes = views(nodes@);
        if idx > 0 {
            nodes.push(MarkupNode::LineBreak);
        }
        let mut more = parse_line(lines[idx].as_str());
        proof {
            assert(views(nodes@ + more@) =~= views(nodes@) + views(more@));
        }
        nodes.append(&mut more);
        proof {
            let t = ls.take(idx + 1);
            assert(t.drop_last() =~= ls.take(idx as int));
            assert(t.last() == lines@[idx as int]@);
            assert(views(nodes@) =~= lines_nodes(t));
        }
        idx = idx + 1;
    }
    assert(ls.take(lines.len() as int) =~= ls);
    nodes
}

/// The rows laid out from the nodes before position `n`: the spans
/// `[start, end)` of the finished rows, and where the row in progress
/// starts. A line break ends the row in progress; a row with no node is
/// not laid out.
pub open spec fn rows_upto(ns: Seq<MarkupView>, n: int) -> (Seq<(int, int)>, int)
    decreases n,
{
    if n <= 0 {
        (Seq::empty(), 0)
    } else {
        let (done, start) = rows_upto(ns, n - 1);
        if ns[n - 1] is LineBreak {
            if start < n - 1 {
                (done.push((start, n - 1)), n)
            } else {
                (done, n)
            }
        } else {
            (done, start)
        }
    }
}

/// The rows the widget lays `ns` out in: each maximal run of text and
/// link nodes between line breaks, as a span of positions, empty runs left
/// out.
pub open spec fn markup_rows_of(ns: Seq<MarkupView>) -> Seq<(int, int)> {
    let (done, start) = rows_upto(ns, ns.len() as int);
    if start < ns.len() {
        done.push((start, ns.len() as int))
    } else {
        done
    }
}

/// Splits rendered markup into rows (see [`markup_rows_of`]): the spans of
/// node positions that go on one line each.
pub fn markup_rows(nodes: &Vec<MarkupNode>) -> (r: Vec<(usize, usize)>)
    ensures
        r@.map_values(|p: (usize, usize)| (p.0 as int, p.1 as int)) == markup_rows_of(views(nodes@)),
{
    let ghost ns = views(nodes@);
    let mut rows: Vec<(usize, usize)> = Vec::new();
    let mut start: usize = 0;
    let mut i: usize = 0;
    while i < nodes.len()
        invariant
            ns == views(nodes@),
            i <= nodes.len(),
            start <= i,
            rows_upto(ns, i as int) == (rows@.map_values(|p: (usize, usize)| (p.0 as int, p.1 as int)), start as int),
        decreases nodes.len() - i,
    {
        let ghost before = rows@.map_values(|p: (usize, usize)| (p.0 as int, p.1 as int));
        assert(ns[i as int] == nodes@[i as int]@);
        match &nodes[i] {
            MarkupNode::LineBreak => {
                if start < i {
                    rows.push((start, i));
                    assert(rows@.map_values(|p: (usize, usize)| (p.0 as int, p.1 as int)) =~= before.push(
                        (start as int, i as int),
                    ));
                }
                start = i + 1;
            },
            _ => {},
        }
        i = i + 1;
    }
    let ghost done = rows@.map_values(|p: (usize, usize)| (p.0 as int, p.1 as int));
    if start < nodes.len() {
        rows.push((start, nodes.len()));
        assert(rows@.map_values(|p: (usize, usize)| (p.0 as int, p.1 as int)) =~= done.push(
            (start as int, nodes.len() as int),
        ));
    }
    rows
}

/// A body of one line with no HTML-style link gets exactly the nodes its
/// bare URLs give: plain text between them and each URL as a link to
/// itself, as [`parse_urls_in_text`] makes them.
pub proof fn law_plain_line_is_urls(input: Seq<char>)
    requires
        input.len() > 0,
        forall|k: int| 0 <= k < input.len() ==> input[k] != '\n',
        link_at(input) is None,
    ensures
        markup_nodes(input) == url_nodes(input),
{
    lemma_first_index(input, '\n');
    assert(split_lines(input) == seq![input]);
    let ls = seq![input];
    assert(ls.drop_last() =~= Seq::<Seq<char>>::empty());
    assert(lines_nodes(ls.drop_last()) == Seq::<MarkupView>::empty());
    assert(lines_nodes(ls) =~= line_nodes(input));
}

/// Positions `a..b` of `ns` form one row: a nonempty run of text and link
/// nodes with a line break (or the end) on each side.
pub open spec fn row_ok(ns: Seq<MarkupView>, a: int, b: int) -> bool {
    &&& 0 <= a < b <= ns.len()
    &&& (a == 0 || ns[a - 1] is LineBreak)
    &&& (b == ns.len() || ns[b] is LineBreak)
    &&& forall|k: int| a <= k < b ==> !(#[trigger] ns[k] is LineBreak)
}

proof fn lemma_rows_upto(ns: Seq<MarkupView>, n: int)
    requires
        0 <= n <= ns.len(),
    ensures
        0 <= rows_upto(ns, n).1 <= n,
        rows_upto(ns, n).1 == 0 || ns[rows_upto(ns, n).1 - 1] is LineBreak,
        forall|k: int| rows_upto(ns, n).1 <= k < n ==> !(#[trigger] ns[k] is LineBreak),
        forall|i: int|
            0 <= i < rows_upto(ns, n).0.len() ==> row_ok(ns, (#[trigger] rows_upto(ns, n).0[i]).0, rows_upto(ns, n).0[i].1)
                && rows_upto(ns, n).0[i].1 < rows_upto(ns, n).1,
        forall|i: int, j: int|
            0 <= i < j < rows_upto(ns, n).0.len() ==> (#[trigger] rows_upto(ns, n).0[i]).1 < (
            #[trigger] rows_upto(ns, n).0[j]).0,
        forall|k: int|
            0 <= k < rows_upto(ns, n).1 && !(#[trigger] ns[k] is LineBreak) ==> exists|i: int|
                0 <= i < rows_upto(ns, n).0.len() && (#[trigger] rows_upto(ns, n).0[i]).0 <= k < rows_upto(
                    ns,
                    n,
                ).0[i].1,
    decreases n,
{
    if n > 0 {
        lemma_rows_upto(ns, n - 1);
        let (done, start) = rows_upto(ns, n - 1);
        if ns[n - 1] is LineBreak {
            if start < n - 1 {
                let d2 = done.push((start, n - 1));
                assert(rows_upto(ns, n) == (d2, n));
                assert(row_ok(ns, start, n - 1));
                assert forall|i: int| 0 <= i < d2.len() implies row_ok(ns, (#[trigger] d2[i]).0, d2[i].1) && d2[i].1
                    < n by {
                    if i < done.len() {
                        assert(d2[i] == done[i]);
                    }
                }
                assert forall|i: int, j: int| 0 <= i < j < d2.len() implies (#[trigger] d2[i]).1 < (
                #[trigger] d2[j]).0 by {
                    assert(d2[i] == done[i]);
                    if j < done.len() {
                        assert(d2[j] == done[j]);
                    }
                }
                assert forall|k: int| 0 <= k < n && !(#[trigger] ns[k] is LineBreak) implies exists|i: int|
                    0 <= i < d2.len() && (#[trigger] d2[i]).0 <= k < d2[i].1 by {
                    if k < start {
                        let i = choose|i: int| 0 <= i < done.len() && (#[trigger] done[i]).0 <= k < done[i].1;
                        assert(d2[i] == done[i]);
                    } else {
                        assert(d2[done.len() as int] == (start, n - 1));
                    }
                }
                assert forall|k: int| 0 <= k < n && !(#[trigger] ns[k] is LineBreak) implies exists|i: int|
                    0 <= i < rows_upto(ns, n).0.len() && (#[trigger] rows_upto(ns, n).0[i]).0 <= k < rows_upto(
                        ns,
                        n,
                    ).0[i].1 by {
                    let i = choose|i: int| 0 <= i < d2.len() && (#[trigger] d2[i]).0 <= k < d2[i].1;
                    assert(rows_upto(ns, n).0[i] == d2[i]);
                }
            } else {
                assert(rows_upto(ns, n) == (done, n));
                assert forall|k: int| 0 <= k < n && !(#[trigger] ns[k] is LineBreak) implies exists|i: int|
                    0 <= i < rows_upto(ns, n).0.len() && (#[trigger] rows_upto(ns, n).0[i]).0 <= k < rows_upto(
                        ns,
                        n,
                    ).0[i].1 by {
                    assert(k < start);
                    let i = choose|i: int| 0 <= i < done.len() && (#[trigger] done[i]).0 <= k < done[i].1;
                    assert(rows_upto(ns, n).0[i] == done[i]);
                }
                assert forall|i: int| 0 <= i < done.len() implies row_ok(ns, (#[trigger] done[i]).0, done[i].1)
                    && done[i].1 < n by {}
            }
        } else {
            assert(rows_upto(ns, n) == (done, start));
            assert forall|k: int| 0 <= k < start && !(#[trigger] ns[k] is LineBreak) implies exists|i: int|
                0 <= i < rows_upto(ns, n).0.len() && (#[trigger] rows_upto(ns, n).0[i]).0 <= k < rows_upto(
                    ns,
                    n,
                ).0[i].1 by {
                let i = choose|i: int| 0 <= i < done.len() && (#[trigger] done[i]).0 <= k < done[i].1;
                assert(rows_upto(ns, n).0[i] == done[i]);
            }
            assert forall|k: int| start <= k < n implies !(#[trigger] ns[k] is LineBreak) by {
                if k < n - 1 {
                    assert(!(ns[k] is LineBreak));
                }
            }
        }
    }
}

/// The rows of laid-out markup are exactly its maximal runs of text and
/// link nodes: each row is such a run with a line break or an end on each
/// side, rows come in order, and every text or link node is in a row.
pub proof fn law_markup_rows(ns: Seq<MarkupView>)
    ensures
        forall|i: int|
            0 <= i < markup_rows_of(ns).len() ==> row_ok(ns, (#[trigger] markup_rows_of(ns)[i]).0, markup_rows_of(ns)[i].1),
        forall|i: int, j: int|
            0 <= i < j < markup_rows_of(ns).len() ==> (#[trigger] markup_rows_of(ns)[i]).1 < (
            #[trigger] markup_rows_of(ns)[j]).0,
        forall|k: int|
            0 <= k < ns.len() && !(#[trigger] ns[k] is LineBreak) ==> exists|i: int|
                0 <= i < markup_rows_of(ns).len() && (#[trigger] markup_rows_of(ns)[i]).0 <= k
                    < markup_rows_of(ns)[i].1,
{
    let n = ns.len() as int;
    lemma_rows_upto(ns, n);
    let (done, start) = rows_upto(ns, n);
    let r = markup_rows_of(ns);
    if start < n {
        assert(r == done.push((start, n)));
        assert(row_ok(ns, start, n));
        assert forall|i: int| 0 <= i < r.len() implies row_ok(ns, (#[trigger] r[i]).0, r[i].1) by {
            if i < done.len() {
                assert(r[i] == done[i]);
            }
        }
        assert forall|i: int, j: int| 0 <= i < j < r.len() implies (#[trigger] r[i]).1 < (#[trigger] r[j]).0 by {
            assert(r[i] == done[i]);
            if j < done.len() {
                assert(r[j] == done[j]);
            }
        }
        assert forall|k: int| 0 <= k < n && !(#[trigger] ns[k] is LineBreak) implies exists|i: int|
            0 <= i < r.len() && (#[trigger] r[i]).0 <= k < r[i].1 by {
            if k < start {
                let i = choose|i: int| 0 <= i < done.len() && (#[trigger] done[i]).0 <= k < done[i].1;
                assert(r[i] == done[i]);
            } else {
                assert(r[done.len() as int] == (start, n));
            }
        }
    } else {
        assert(r == done);
    }
}

} // verus!
