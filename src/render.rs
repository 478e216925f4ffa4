use colored::Colorize;
use vstd::prelude::*;
use vstd::utf8::encode_utf8;
use crate::entry::{models, EntryModel, TodoEntry};
use crate::text::{find_from, find_text, holds_text, same_text};

verus! {

/// The upper-case form of `s`, by Unicode's case mapping.
pub uninterp spec fn upper_of(s: Seq<char>) -> Seq<char>;

/// Relies on str::to_uppercase: the text in upper case.
#[verifier::external_body]
fn uppercase(s: &str) -> (r: String)
    ensures
        r@ == upper_of(s@),
{
    s.to_uppercase()
}

pub open spec fn digit_char(d: nat) -> char {
    if d == 0 {
        '0'
    } else if d == 1 {
        '1'
    } else if d == 2 {
        '2'
    } else if d == 3 {
        '3'
    } else if d == 4 {
        '4'
    } else if d == 5 {
        '5'
    } else if d == 6 {
        '6'
    } else if d == 7 {
        '7'
    } else if d == 8 {
        '8'
    } else {
        '9'
    }
}

/// The decimal digits of `n`, without leading zeros.
pub open spec fn decimal(n: nat) -> Seq<char>
    decreases n,
{
    if n < 10 {
        seq![digit_char(n)]
    } else {
        decimal(n / 10).push(digit_char(n % 10))
    }
}

/// Relies on the `Display` impl of usize, through to_string: decimal digits.
#[verifier::external_body]
fn decimal_text(n: usize) -> (r: String)
    ensures
        r@ == decimal(n as nat),
{
    n.to_string()
}

/// The code that ends a styled piece of terminal text.
pub open spec fn reset_code() -> Seq<char> {
    seq!['\x1b', '[', '0', 'm']
}

/// Whether `out` shows `text` styled: as it is, when colors are off, or after
/// a style code and before the reset code. Said of texts without a reset code.
pub open spec fn shows(out: Seq<char>, text: Seq<char>) -> bool {
    !holds_text(text, reset_code()) ==> (out == text || exists|code: Seq<char>|
        out == #[trigger] (code + text) + reset_code())
}

/// Relies on colored's `green` and the display of a colored string.
#[verifier::external_body]
fn green(s: &str) -> (r: String)
    ensures
        shows(r@, s@),
{
    s.green().to_string()
}

/// Relies on colored's `bold` and `underline` and the display of a colored string.
#[verifier::external_body]
fn bold_underline(s: &str) -> (r: String)
    ensures
        shows(r@, s@),
{
    s.bold().underline().to_string()
}

/// Relies on colored's `cyan` and `bold` and the display of a colored string.
#[verifier::external_body]
fn cyan_bold(s: &str) -> (r: String)
    ensures
        shows(r@, s@),
{
    s.cyan().bold().to_string()
}

/// Relies on colored's `dimmed` and the display of a colored string.
#[verifier::external_body]
fn dimmed(s: &str) -> (r: String)
    ensures
        shows(r@, s@),
{
    s.dimmed().to_string()
}

/// Relies on colored's `yellow` and `bold` and the display of a colored string.
#[verifier::external_body]
fn yellow_bold(s: &str) -> (r: String)
    ensures
        shows(r@, s@),
{
    s.yellow().bold().to_string()
}

/// Relies on colored's `red` and `bold` and the display of a colored string.
#[verifier::external_body]
fn red_bold(s: &str) -> (r: String)
    ensures
        shows(r@, s@),
{
    s.red().bold().to_string()
}

/// Relies on colored's `bold` and the display of a colored string.
#[verifier::external_body]
fn bold(s: &str) -> (r: String)
    ensures
        shows(r@, s@),
{
    s.bold().to_string()
}

/// How a piece of the report looks on a terminal.
#[derive(Debug, Clone, Copy, PartialEq, Eq)]
pub enum Style {
    Plain,
    Green,
    BoldUnderline,
    CyanBold,
    Dimmed,
    YellowBold,
    RedBold,
    Bold,
}

/// A piece of the report: text and its style.
#[derive(Debug, Clone)]
pub struct Segment {
    pub style: Style,
    pub text: String,
}

pub open spec fn seg_models(v: Seq<Segment>) -> Seq<(Style, Seq<char>)> {
    v.map_values(|s: Segment| (s.style, s.text@))
}

/// The message of a report without entries.
pub open spec fn no_entries_message() -> Seq<char> {
    "No TODO/FIXME entries found."@
}

/// The style of a keyword: `TODO` and `FIXME`, in any case, stand out.
pub open spec fn keyword_style(k: Seq<char>) -> Style {
    if upper_of(k) == "TODO"@ {
        Style::YellowBold
    } else if upper_of(k) == "FIXME"@ {
        Style::RedBold
    } else {
        Style::Plain
    }
}

/// An entry's text with the first occurrence of its keyword styled.
pub open spec fn text_segments(text: Seq<char>, keyword: Seq<char>) -> Seq<(Style, Seq<char>)> {
    match find_from(text, keyword, 0) {
        None => seq![(Style::Plain, text)],
        Some(i) => seq![
            (Style::Plain, text.subrange(0, i)),
            (keyword_style(keyword), keyword),
            (Style::Plain, text.subrange(i + keyword.len(), text.len() as int)),
        ],
    }
}

/// `n` copies of `c`.
pub open spec fn repeated(c: char, n: nat) -> Seq<char> {
    Seq::new(n, |i: int| c)
}

/// A line number right-aligned in four columns, then a colon.
pub open spec fn line_label(n: nat) -> Seq<char> {
    let d = decimal(n);
    if d.len() < 4 {
        repeated(' ', (4 - d.len()) as nat) + d + seq![':']
    } else {
        d + seq![':']
    }
}

/// The pieces for one entry; a file header comes first when the entry's file
/// differs from the file of the entry before it.
pub open spec fn entry_segments(
    prev: Option<Seq<char>>,
    e: EntryModel,
    show_context: bool,
) -> Seq<(Style, Seq<char>)> {
    let header = if prev == Some(e.file_path) {
        Seq::empty()
    } else {
        seq![
            (Style::Plain, "\n"@),
            (Style::CyanBold, e.file_path),
            (Style::Plain, "\n"@),
            (Style::Plain, repeated('\u{2500}', encode_utf8(e.file_path).len()) + "\n"@),
        ]
    };
    let context = if show_context && e.context is Some {
        seq![(Style::Dimmed, "    ..."@), (Style::Plain, "\n"@)]
    } else {
        Seq::empty()
    };
    header + seq![(Style::Dimmed, line_label(e.line_number)), (Style::Plain, " "@)]
        + text_segments(e.text, e.keyword) + seq![(Style::Plain, "\n"@)] + context
}

pub open spec fn previous_path(es: Seq<EntryModel>, k: int) -> Option<Seq<char>> {
    if k == 0 {
        None
    } else {
        Some(es[k - 1].file_path)
    }
}

/// The pieces for the first `k` entries.
pub open spec fn body_segments(es: Seq<EntryModel>, k: nat, show_context: bool) -> Seq<
    (Style, Seq<char>),
>
    decreases k,
{
    if k == 0 {
        Seq::empty()
    } else {
        body_segments(es, (k - 1) as nat, show_context) + entry_segments(
            previous_path(es, k - 1),
            es[k - 1],
            show_context,
        )
    }
}

/// The closing count of entries.
pub open spec fn summary_segments(n: nat) -> Seq<(Style, Seq<char>)> {
    seq![
        (Style::Plain, "\n"@),
        (Style::Bold, "Summary"@),
        (Style::Plain, ": "@),
        (Style::YellowBold, decimal(n)),
        (Style::Plain, if n == 1 {
            " entry found\n"@
        } else {
            " entries found\n"@
        }),
    ]
}

/// The pieces of the text report on `es`.
pub open spec fn report_segments(es: Seq<EntryModel>, show_context: bool) -> Seq<
    (Style, Seq<char>),
> {
    if es.len() == 0 {
        seq![(Style::Green, no_entries_message()), (Style::Plain, "\n"@)]
    } else {
        seq![
            (Style::BoldUnderline, "TODO/FIXME Scan Results"@),
            (Style::Plain, "\n"@),
            (Style::Plain, "\n"@),
        ] + body_segments(es, es.len(), show_context) + summary_segments(es.len())
    }
}

/// Whether `out` is `text` painted in `style`.
pub open spec fn painted(style: Style, text: Seq<char>, out: Seq<char>) -> bool {
    if style == Style::Plain {
        out == text
    } else {
        shows(out, text)
    }
}

/// Whether each of `pieces` is the matching segment painted.
pub open spec fn painted_all(pieces: Seq<Seq<char>>, segs: Seq<(Style, Seq<char>)>) -> bool {
    pieces.len() == segs.len() && forall|i: int|
        0 <= i < segs.len() ==> painted(segs[i].0, segs[i].1, #[trigger] pieces[i])
}

/// The pieces one after the other.
pub open spec fn joined(pieces: Seq<Seq<char>>) -> Seq<char>
    decreases pieces.len(),
{
    if pieces.len() == 0 {
        Seq::empty()
    } else {
        joined(pieces.drop_last()) + pieces.last()
    }
}

/// Whether `out` is the segments `segs`, each painted in its style.
pub open spec fn renders(out: Seq<char>, segs: Seq<(Style, Seq<char>)>) -> bool {
    exists|pieces: Seq<Seq<char>>| #[trigger] painted_all(pieces, segs) && out == joined(pieces)
}

fn push_segment(out: &mut Vec<Segment>, style: Style, text: &str)
    ensures
        seg_models(final(out)@) == seg_models(old(out)@).push((style, text@)),
{
    out.push(Segment { style, text: text.to_owned() });
    assert(seg_models(out@) =~= seg_models(old(out)@).push((style, text@)));
}

fn label_text(n: usize) -> (r: String)
    ensures
        r@ == line_label(n as nat),
{
    let d = decimal_text(n);
    let len = d.as_str().unicode_len();
    let mut r = String::new();
    if len < 4 {
        let mut i: usize = 0;
        while i < 4 - len
            invariant
                len < 4,
                i <= 4 - len,
                r@ == repeated(' ', i as nat),
            decreases 4 - len - i,
        {
            r.append(" ");
            proof {
                reveal_strlit(" ");
            }
            assert(r@ =~= repeated(' ', (i + 1) as nat));
            i = i + 1;
        }
    }
    r.append(d.as_str());
    r.append(":");
    proof {
        reveal_strlit(":");
        assert(r@ =~= line_label(n as nat));
    }
    r
}

fn rule_text(n: usize) -> (r: String)
    ensures
        r@ == repeated('\u{2500}', n as nat) + "\n"@,
{
    let mut r = String::new();
    let mut i: usize = 0;
    while i < n
        invariant
            i <= n,
            r@ == repeated('\u{2500}', i as nat),
        decreases n - i,
    {
        r.append("\u{2500}");
        proof {
            reveal_strlit("\u{2500}");
        }
        assert(r@ =~= repeated('\u{2500}', (i + 1) as nat));
        i = i + 1;
    }
    r.append("\n");
    r
}

fn style_of_keyword(k: &str) -> (r: Style)
    ensures
        r == keyword_style(k@),
{
    let up = uppercase(k);
    if same_text(up.as_str(), "TODO") {
        Style::YellowBold
    } else if same_text(up.as_str(), "FIXME") {
        Style::RedBold
    } else {
        Style::Plain
    }
}

pub open spec fn prev_path(prev: Option<&TodoEntry>) -> Option<Seq<char>> {
    match prev {
        None => None,
        Some(p) => Some(p.file_path@),
    }
}

fn push_entry(out: &mut Vec<Segment>, prev: Option<&TodoEntry>, e: &TodoEntry, show_context: bool)
    ensures
        seg_models(final(out)@) == seg_models(old(out)@) + entry_segments(
            prev_path(prev),
            e@,
            show_context,
        ),
{
    let ghost start = seg_models(out@);
    let ghost em = e@;
    let same = match prev {
        None => false,
        Some(p) => same_text(p.file_path.as_str(), e.file_path.as_str()),
    };
    assert(same == (prev_path(prev) == Some(em.file_path)));
    let path = e.file_path.as_str();
    let ghost header: Seq<(Style, Seq<char>)> = if prev_path(prev) == Some(em.file_path) {
        Seq::empty()
    } else {
        seq![
            (Style::Plain, "\n"@),
            (Style::CyanBold, em.file_path),
            (Style::Plain, "\n"@),
            (Style::Plain, repeated('\u{2500}', encode_utf8(em.file_path).len()) + "\n"@),
        ]
    };
    if !same {
        push_segment(out, Style::Plain, "\n");
        push_segment(out, Style::CyanBold, path);
        push_segment(out, Style::Plain, "\n");
        let bytes = path.as_bytes().len();
        assert(bytes as nat == encode_utf8(em.file_path).len());
        let rule = rule_text(bytes);
        push_segment(out, Style::Plain, rule.as_str());
    }
    assert(seg_models(out@) =~= start + header);
    let label = label_text(e.line_number);
    push_segment(out, Style::Dimmed, label.as_str());
    push_segment(out, Style::Plain, " ");
    let ghost mid = seg_models(out@);
    let text = e.text.as_str();
    let keyword = e.keyword.as_str();
    match find_text(text, keyword) {
        None => {
            push_segment(out, Style::Plain, text);
        },
        Some(i) => {
            let n = text.unicode_len();
            let m = keyword.unicode_len();
            push_segment(out, Style::Plain, text.substring_char(0, i));
            let style = style_of_keyword(keyword);
            push_segment(out, style, keyword);
            push_segment(out, Style::Plain, text.substring_char(i + m, n));
        },
    }
    assert(seg_models(out@) =~= mid + text_segments(em.text, em.keyword));
    push_segment(out, Style::Plain, "\n");
    let ghost before_context = seg_models(out@);
    if show_context && e.context.is_some() {
        push_segment(out, Style::Dimmed, "    ...");
        push_segment(out, Style::Plain, "\n");
    }
    proof {
        let context: Seq<(Style, Seq<char>)> = if show_context && em.context is Some {
            seq![(Style::Dimmed, "    ..."@), (Style::Plain, "\n"@)]
        } else {
            Seq::empty()
        };
        assert(seg_models(out@) =~= before_context + context);
        assert(entry_segments(prev_path(prev), em, show_context) =~= header + seq![
            (Style::Dimmed, line_label(em.line_number)),
            (Style::Plain, " "@),
        ] + text_segments(em.text, em.keyword) + seq![(Style::Plain, "\n"@)] + context);
        assert(seg_models(out@) =~= start + entry_segments(prev_path(prev), em, show_context));
    }
}

/// The pieces of the text report on `entries`, in the order given: a header,
/// then for each file a heading and one line per entry, then a count. A
/// report without entries is a single message.
pub fn render_segments(entries: &[TodoEntry], show_context: bool) -> (r: Vec<Segment>)
    ensures
        seg_models(r@) == report_segments(models(entries@), show_context),
{
    let ghost es = models(entries@);
    let mut out: Vec<Segment> = Vec::new();
    if entries.len() == 0 {
        push_segment(&mut out, Style::Green, "No TODO/FIXME entries found.");
        push_segment(&mut out, Style::Plain, "\n");
        assert(seg_models(out@) =~= report_segments(es, show_context));
        return out;
    }
    push_segment(&mut out, Style::BoldUnderline, "TODO/FIXME Scan Results");
    push_segment(&mut out, Style::Plain, "\n");
    push_segment(&mut out, Style::Plain, "\n");
    let ghost head = seg_models(out@);
    assert(seg_models(out@) =~= head + body_segments(es, 0, show_context));
    let mut k: usize = 0;
    while k < entries.len()
        invariant
            es == models(entries@),
            k <= entries@.len(),
            seg_models(out@) == head + body_segments(es, k as nat, show_context),
        decreases entries@.len() - k,
    {
        let prev = if k == 0 {
            None
        } else {
            Some(&entries[k - 1])
        };
        push_entry(&mut out, prev, &entries[k], show_context);
        assert(prev_path(prev) == previous_path(es, k as int));
        assert(es[k as int] == entries@[k as int]@);
        assert(seg_models(out@) =~= head + body_segments(es, (k + 1) as nat, show_context));
        k = k + 1;
    }
    let count = decimal_text(entries.len());
    push_segment(&mut out, Style::Plain, "\n");
    push_segment(&mut out, Style::Bold, "Summary");
    push_segment(&mut out, Style::Plain, ": ");
    push_segment(&mut out, Style::YellowBold, count.as_str());
    if entries.len() == 1 {
        push_segment(&mut out, Style::Plain, " entry found\n");
    } else {
        push_segment(&mut out, Style::Plain, " entries found\n");
    }
    assert(seg_models(out@) =~= report_segments(es, show_context));
    out
}

/// Paints one segment in its style.
fn paint(s: &Segment) -> (r: String)
    ensures
        painted(s.style, s.text@, r@),
{
    let t = s.text.as_str();
    match s.style {
        Style::Plain => t.to_owned(),
        Style::Green => green(t),
        Style::BoldUnderline => bold_underline(t),
        Style::CyanBold => cyan_bold(t),
        Style::Dimmed => dimmed(t),
        Style::YellowBold => yellow_bold(t),
        Style::RedBold => red_bold(t),
        Style::Bold => bold(t),
    }
}

proof fn lemma_message_has_no_reset()
    ensures
        !holds_text(no_entries_message(), reset_code()),
{
    reveal_strlit("No TODO/FIXME entries found.");
    let m = no_entries_message();
    assert forall|i: int| 0 <= i < m.len() implies m[i] != '\x1b' by {}
    if holds_text(m, reset_code()) {
        let i = choose|i: int|
            0 <= i && i + reset_code().len() <= m.len() && #[trigger] m.subrange(
                i,
                i + reset_code().len(),
            ) == reset_code();
        assert(m.subrange(i, i + 4)[0] == m[i]);
    }
}

/// Formats entries as a text report for a terminal, with colors where the
/// terminal takes them. The entries are shown in the order given.
pub fn format_results_colored(entries: &[TodoEntry], show_context: bool) -> (r: String)
    ensures
        renders(r@, report_segments(models(entries@), show_context)),
        entries@.len() == 0 ==> holds_text(r@, no_entries_message()),
{
    let segs = render_segments(entries, show_context);
    let ghost sm = seg_models(segs@);
    let ghost mut pieces: Seq<Seq<char>> = Seq::empty();
    let mut out = String::new();
    let mut i: usize = 0;
    while i < segs.len()
        invariant
            sm == seg_models(segs@),
            i <= segs@.len(),
            painted_all(pieces, sm.subrange(0, i as int)),
            out@ == joined(pieces),
        decreases segs@.len() - i,
    {
        let piece = paint(&segs[i]);
        out.append(piece.as_str());
        proof {
            let old_pieces = pieces;
            pieces = pieces.push(piece@);
            assert(pieces.drop_last() =~= old_pieces);
            assert(sm[i as int] == (segs@[i as int].style, segs@[i as int].text@));
            assert forall|k: int| 0 <= k < i + 1 implies painted(
                sm.subrange(0, i + 1)[k].0,
                sm.subrange(0, i + 1)[k].1,
                #[trigger] pieces[k],
            ) by {
                if k < i {
                    assert(sm.subrange(0, i + 1)[k] == sm.subrange(0, i as int)[k]);
                }
            }
        }
        i = i + 1;
    }
    assert(sm.subrange(0, i as int) =~= sm);
    assert(painted_all(pieces, sm));
    proof {
        if entries@.len() == 0 {
            lemma_message_has_no_reset();
            let m = no_entries_message();
            assert(pieces.len() == 2);
            assert(pieces.drop_last().drop_last() =~= Seq::<Seq<char>>::empty());
            assert(joined(pieces.drop_last().drop_last()) == Seq::<char>::empty());
            assert(joined(pieces.drop_last()) =~= pieces[0]);
            assert(out@ == pieces[0] + pieces[1]);
            assert(painted(sm[0].0, sm[0].1, pieces[0]));
            if pieces[0] == m {
                assert(out@.subrange(0, m.len() as int) =~= m);
            } else {
                let code = choose|code: Seq<char>| pieces[0] == #[trigger] (code + m) + reset_code();
                assert(out@.subrange(code.len() as int, code.len() + m.len() as int) =~= m);
            }
        }
    }
    out
}

} // verus!
