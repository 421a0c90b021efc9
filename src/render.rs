use vstd::prelude::*;
use crate::matcher::{match_spans, region_of_span, Matcher};
use crate::region::Region;
use crate::text::{char_index_of, chars_of, split_lines, split_spec, string_views};

verus! {

/// Foreground colors the renderer uses.
#[derive(Clone, Copy, Debug, PartialEq, Eq, Structural)]
pub enum Color {
    Default,
    Green,
    Cyan,
}

/// The terminal's current text attributes.
#[derive(Clone, Copy, Debug, PartialEq, Eq, Structural)]
pub struct Attrs {
    pub reverse: bool,
    pub color: Color,
}

/// One operation on the terminal.
#[derive(Clone, Copy, Debug, PartialEq, Eq, Structural)]
pub enum TermOp {
    /// Reverse video with a green foreground.
    Highlight,
    /// Back to the default attributes.
    Reset,
    /// Cyan foreground, for file paths.
    Label,
    /// Write one character.
    Put(char),
    /// End the line.
    NewLine,
}

pub open spec fn plain() -> Attrs {
    Attrs { reverse: false, color: Color::Default }
}

pub open spec fn highlighted() -> Attrs {
    Attrs { reverse: true, color: Color::Green }
}

/// The attributes after `op`, starting from `a`.
pub open spec fn apply(op: TermOp, a: Attrs) -> Attrs {
    match op {
        TermOp::Highlight => highlighted(),
        TermOp::Reset => plain(),
        TermOp::Label => Attrs { reverse: a.reverse, color: Color::Cyan },
        _ => a,
    }
}

/// The attributes after running `ops` from `a`.
pub open spec fn attrs_after(ops: Seq<TermOp>, a: Attrs) -> Attrs
    decreases ops.len(),
{
    if ops.len() == 0 {
        a
    } else {
        attrs_after(ops.drop_first(), apply(ops[0], a))
    }
}

/// What running `ops` from `a` shows: each written character with the
/// attributes it is drawn in. A line break carries no attributes.
pub open spec fn shown(ops: Seq<TermOp>, a: Attrs) -> Seq<(char, Attrs)>
    decreases ops.len(),
{
    if ops.len() == 0 {
        Seq::empty()
    } else {
        match ops[0] {
            TermOp::Put(c) => seq![(c, a)] + shown(ops.drop_first(), a),
            TermOp::NewLine => seq![('\n', plain())] + shown(ops.drop_first(), a),
            _ => shown(ops.drop_first(), apply(ops[0], a)),
        }
    }
}

/// Whether some region holds character index `i`.
pub open spec fn covered(regions: Seq<Region>, i: int) -> bool {
    exists|j: int| 0 <= j < regions.len() && (#[trigger] regions[j]).has(i)
}

/// The attribute operation that precedes character `i`.
pub open spec fn style_op(regions: Seq<Region>, i: int) -> TermOp {
    if covered(regions, i) {
        TermOp::Highlight
    } else {
        TermOp::Reset
    }
}

/// The operations that render `line`: before each character the attribute
/// it is drawn in, then the character; after the last, a line break and a
/// reset.
pub open spec fn line_ops(line: Seq<char>, regions: Seq<Region>) -> Seq<TermOp> {
    Seq::new((2 * line.len() + 2) as nat, |k: int| line_op_at(line, regions, k))
}

/// Operation `k` of the rendering of `line`.
pub open spec fn line_op_at(line: Seq<char>, regions: Seq<Region>, k: int) -> TermOp {
    let n = line.len() as int;
    if k == 2 * n {
        TermOp::NewLine
    } else if k == 2 * n + 1 {
        TermOp::Reset
    } else if k % 2 == 0 {
        style_op(regions, k / 2)
    } else {
        TermOp::Put(line[k / 2])
    }
}

/// What a rendered line looks like: each character, highlighted exactly
/// where a region holds it, then the line break.
pub open spec fn line_cells(line: Seq<char>, regions: Seq<Region>) -> Seq<(char, Attrs)> {
    Seq::new((line.len() + 1) as nat, |k: int| line_cell_at(line, regions, k))
}

/// Cell `k` of a rendered line.
pub open spec fn line_cell_at(line: Seq<char>, regions: Seq<Region>, k: int) -> (char, Attrs) {
    if k == line.len() {
        ('\n', plain())
    } else if covered(regions, k) {
        (line[k], highlighted())
    } else {
        (line[k], plain())
    }
}

proof fn lemma_line_suffix(line: Seq<char>, regions: Seq<Region>, k: int, a: Attrs)
    requires
        0 <= k <= line.len(),
    ensures
        shown(line_ops(line, regions).subrange(2 * k, 2 * line.len() as int + 2), a)
            == line_cells(line, regions).subrange(k, line.len() as int + 1),
        attrs_after(line_ops(line, regions).subrange(2 * k, 2 * line.len() as int + 2), a) == plain(),
    decreases line.len() - k,
{
    let n = line.len() as int;
    let ops = line_ops(line, regions);
    let cells = line_cells(line, regions);
    assert(ops.len() == 2 * n + 2);
    assert(cells.len() == n + 1);
    let s0 = ops.subrange(2 * k, 2 * n + 2);
    let s1 = ops.subrange(2 * k + 1, 2 * n + 2);
    let s2 = ops.subrange(2 * k + 2, 2 * n + 2);
    assert(s0.drop_first() =~= s1);
    assert(s1.drop_first() =~= s2);
    let st = apply(s0[0], a);
    assert(s0[0] == line_op_at(line, regions, 2 * k));
    assert(s1[0] == line_op_at(line, regions, 2 * k + 1));
    if k == n {
        assert(s2.len() == 0);
        assert(s1 =~= seq![TermOp::Reset]);
        assert(shown(s2, plain()) == Seq::<(char, Attrs)>::empty());
        assert(shown(s1, a) == shown(s2, plain()));
        assert(shown(s0, a) == seq![('\n', plain())] + shown(s1, a));
        assert(attrs_after(s1, a) == attrs_after(s2, plain()));
        assert(cells.subrange(k, n + 1) =~= seq![('\n', plain())]);
        assert(seq![('\n', plain())] + Seq::<(char, Attrs)>::empty() =~= seq![('\n', plain())]);
    } else {
        lemma_line_suffix(line, regions, k + 1, st);
        assert(s0[0] == style_op(regions, k));
        assert(s1[0] == TermOp::Put(line[k]));
        assert(shown(s0, a) == shown(s1, st));
        assert(shown(s1, st) == seq![(line[k], st)] + shown(s2, st));
        assert(attrs_after(s0, a) == attrs_after(s1, st));
        assert(attrs_after(s1, st) == attrs_after(s2, st));
        assert(st == cells[k].1);
        assert(cells.subrange(k, n + 1) =~= seq![cells[k]] + cells.subrange(k + 1, n + 1));
    }
}

/// Rendering a line shows the same thing whatever attributes the terminal
/// had before, and leaves the terminal in its default attributes.
pub proof fn lemma_line_shown(line: Seq<char>, regions: Seq<Region>, a: Attrs)
    ensures
        shown(line_ops(line, regions), a) == line_cells(line, regions),
        attrs_after(line_ops(line, regions), a) == plain(),
{
    lemma_line_suffix(line, regions, 0, a);
    assert(line_ops(line, regions).subrange(0, 2 * line.len() as int + 2) =~= line_ops(line, regions));
    assert(line_cells(line, regions).subrange(0, line.len() as int + 1) =~= line_cells(line, regions));
}

/// Running two sequences of operations one after the other shows what the
/// first shows, then what the second shows from where the first left off.
pub proof fn lemma_shown_concat(x: Seq<TermOp>, y: Seq<TermOp>, a: Attrs)
    ensures
        shown(x + y, a) == shown(x, a) + shown(y, attrs_after(x, a)),
        attrs_after(x + y, a) == attrs_after(y, attrs_after(x, a)),
    decreases x.len(),
{
    if x.len() == 0 {
        assert(x + y =~= y);
        assert(Seq::<(char, Attrs)>::empty() + shown(y, a) =~= shown(y, a));
    } else {
        assert((x + y).drop_first() =~= x.drop_first() + y);
        lemma_shown_concat(x.drop_first(), y, apply(x[0], a));
        match x[0] {
            TermOp::Put(c) => {
                assert(seq![(c, a)] + shown(x.drop_first(), a) + shown(y, attrs_after(x, a))
                    =~= seq![(c, a)] + (shown(x.drop_first(), a) + shown(y, attrs_after(x, a))));
            },
            TermOp::NewLine => {
                assert(seq![('\n', plain())] + shown(x.drop_first(), a) + shown(y, attrs_after(x, a))
                    =~= seq![('\n', plain())] + (shown(x.drop_first(), a) + shown(y, attrs_after(x, a))));
            },
            _ => {},
        }
    }
}

/// Rendering the same line with the same regions twice in a row, with a reset
/// in between, shows the same thing both times.
pub proof fn lemma_render_twice(line: Seq<char>, regions: Seq<Region>, a: Attrs)
    ensures
        shown(line_ops(line, regions) + seq![TermOp::Reset] + line_ops(line, regions), a)
            == line_cells(line, regions) + line_cells(line, regions),
{
    let ops = line_ops(line, regions);
    let reset = seq![TermOp::Reset];
    assert(reset[0] == TermOp::Reset);
    assert(reset.drop_first() =~= Seq::<TermOp>::empty());
    assert(shown(reset.drop_first(), plain()) == Seq::<(char, Attrs)>::empty());
    assert(attrs_after(reset.drop_first(), plain()) == plain());
    assert(shown(reset, attrs_after(ops, a)) == Seq::<(char, Attrs)>::empty());
    assert(attrs_after(reset, attrs_after(ops, a)) == plain());
    lemma_line_shown(line, regions, a);
    lemma_line_shown(line, regions, plain());
    lemma_shown_concat(ops, reset, a);
    lemma_shown_concat(ops + reset, ops, a);
    assert(line_cells(line, regions) + Seq::<(char, Attrs)>::empty() =~= line_cells(line, regions));
}

/// Whether some region of `regions` holds character index `i`.
pub fn is_highlighted(regions: &Vec<Region>, i: usize) -> (r: bool)
    ensures
        r == covered(regions@, i as int),
{
    let mut j: usize = 0;
    while j < regions.len()
        invariant
            j <= regions@.len(),
            forall|k: int| 0 <= k < j ==> !(#[trigger] regions@[k]).has(i as int),
        decreases regions@.len() - j,
    {
        if regions[j].contains(i) {
            return true;
        }
        j = j + 1;
    }
    false
}

/// The terminal operations that draw `line` with the characters that
/// `regions` hold highlighted.
pub fn render_line(line: &str, regions: &Vec<Region>) -> (r: Vec<TermOp>)
    ensures
        r@ == line_ops(line@, regions@),
{
    let chars = chars_of(line);
    let mut r: Vec<TermOp> = Vec::new();
    let mut i: usize = 0;
    while i < chars.len()
        invariant
            i <= chars@.len(),
            chars@ == line@,
            r@ =~= line_ops(line@, regions@).take(2 * i),
        decreases chars@.len() - i,
    {
        if is_highlighted(regions, i) {
            r.push(TermOp::Highlight);
        } else {
            r.push(TermOp::Reset);
        }
        r.push(TermOp::Put(chars[i]));
        proof {
            let k = 2 * i as int;
            assert(k % 2 == 0 && k / 2 == i && (k + 1) % 2 == 1 && (k + 1) / 2 == i);
            assert(line_ops(line@, regions@)[k] == line_op_at(line@, regions@, k));
            assert(line_ops(line@, regions@)[k + 1] == line_op_at(line@, regions@, k + 1));
        }
        i = i + 1;
    }
    r.push(TermOp::NewLine);
    r.push(TermOp::Reset);
    proof {
        let n = line@.len() as int;
        assert(line_ops(line@, regions@)[2 * n] == line_op_at(line@, regions@, 2 * n));
        assert(line_ops(line@, regions@)[2 * n + 1] == line_op_at(line@, regions@, 2 * n + 1));
    }
    assert(r@ =~= line_ops(line@, regions@));
    r
}


/// Writing each character of `s` in turn.
pub open spec fn text_ops(s: Seq<char>) -> Seq<TermOp> {
    Seq::new(s.len(), |k: int| put_at(s, k))
}

/// Writing character `k` of `s`.
pub open spec fn put_at(s: Seq<char>, k: int) -> TermOp {
    TermOp::Put(s[k])
}

/// The header shown above a file's lines: the path in cyan between brackets,
/// indented, then an empty line.
pub open spec fn banner_spec(path: Seq<char>) -> Seq<TermOp> {
    text_ops(seq![' ', ' ', '['])
        + seq![TermOp::Label]
        + text_ops(path)
        + seq![TermOp::Reset, TermOp::Put(']'), TermOp::NewLine, TermOp::NewLine]
}

/// The report of a file that could not be read, naming its path and the
/// error, then an empty line.
pub open spec fn file_error_spec(path: Seq<char>, message: Seq<char>) -> Seq<TermOp> {
    text_ops(seq!['F', 'i', 'l', 'e', ' ', 'e', 'r', 'r', 'o', 'r', ':', ' '])
        + text_ops(path)
        + seq![TermOp::Put(':'), TermOp::Put(' ')]
        + text_ops(message)
        + seq![TermOp::Put('.'), TermOp::NewLine, TermOp::NewLine]
}

/// Writing each character of `s` in turn.
pub fn text_ops_of(s: &str) -> (r: Vec<TermOp>)
    ensures
        r@ == text_ops(s@),
{
    let chars = chars_of(s);
    let mut r: Vec<TermOp> = Vec::new();
    let mut i: usize = 0;
    while i < chars.len()
        invariant
            i <= chars@.len(),
            chars@ == s@,
            r@ =~= text_ops(s@).take(i as int),
        decreases chars@.len() - i,
    {
        r.push(TermOp::Put(chars[i]));
        proof {
            assert(text_ops(s@)[i as int] == put_at(s@, i as int));
        }
        i = i + 1;
    }
    assert(r@ =~= text_ops(s@));
    r
}

/// Appends to `ops` the writing of each character of `s`.
fn push_text(ops: &mut Vec<TermOp>, s: &str)
    ensures
        final(ops)@ == old(ops)@ + text_ops(s@),
{
    let mut t = text_ops_of(s);
    ops.append(&mut t);
}

/// The terminal operations of the header above the lines of file `path`.
pub fn banner_ops(path: &str) -> (r: Vec<TermOp>)
    ensures
        r@ == banner_spec(path@),
{
    let mut r: Vec<TermOp> = Vec::new();
    r.push(TermOp::Put(' '));
    r.push(TermOp::Put(' '));
    r.push(TermOp::Put('['));
    r.push(TermOp::Label);
    push_text(&mut r, path);
    r.push(TermOp::Reset);
    r.push(TermOp::Put(']'));
    r.push(TermOp::NewLine);
    r.push(TermOp::NewLine);
    proof {
        let p = seq![' ', ' ', '['];
        assert(text_ops(p) =~= seq![TermOp::Put(' '), TermOp::Put(' '), TermOp::Put('[')]);
    }
    assert(r@ =~= seq![TermOp::Put(' '), TermOp::Put(' '), TermOp::Put('['), TermOp::Label] + text_ops(path@)
        + seq![TermOp::Reset, TermOp::Put(']'), TermOp::NewLine, TermOp::NewLine]);
    assert(r@ =~= banner_spec(path@));
    r
}

/// The terminal operations that report a file that could not be read.
pub fn file_error_ops(path: &str, message: &str) -> (r: Vec<TermOp>)
    ensures
        r@ == file_error_spec(path@, message@),
{
    let mut r: Vec<TermOp> = Vec::new();
    push_text(&mut r, "File error: ");
    proof {
        reveal_strlit("File error: ");
        assert("File error: "@ =~= seq!['F', 'i', 'l', 'e', ' ', 'e', 'r', 'r', 'o', 'r', ':', ' ']);
    }
    push_text(&mut r, path);
    r.push(TermOp::Put(':'));
    r.push(TermOp::Put(' '));
    push_text(&mut r, message);
    r.push(TermOp::Put('.'));
    r.push(TermOp::NewLine);
    r.push(TermOp::NewLine);
    assert(r@ =~= file_error_spec(path@, message@));
    r
}

/// Whether character `k` of `line` lies inside a match of `pattern`.
pub open spec fn match_covers(pattern: Seq<char>, line: Seq<char>, k: int) -> bool {
    exists|j: int|
        #![trigger match_spans(pattern, line)[j]]
        0 <= j < match_spans(pattern, line).len() && char_index_of(
            line,
            match_spans(pattern, line)[j].0 as int,
        ) <= k < char_index_of(line, match_spans(pattern, line)[j].1 as int)
}

/// Operation `k` of drawing `line` with the matches of `pattern` highlighted.
pub open spec fn match_op_at(pattern: Seq<char>, line: Seq<char>, k: int) -> TermOp {
    let n = line.len() as int;
    if k == 2 * n {
        TermOp::NewLine
    } else if k == 2 * n + 1 {
        TermOp::Reset
    } else if k % 2 == 0 {
        if match_covers(pattern, line, k / 2) {
            TermOp::Highlight
        } else {
            TermOp::Reset
        }
    } else {
        TermOp::Put(line[k / 2])
    }
}

/// The operations that draw `line` with the matches of `pattern` highlighted.
pub open spec fn line_spec(pattern: Seq<char>, line: Seq<char>) -> Seq<TermOp> {
    Seq::new((2 * line.len() + 2) as nat, |k: int| match_op_at(pattern, line, k))
}

/// The operations that draw each of `lines` in turn.
pub open spec fn lines_spec(pattern: Seq<char>, lines: Seq<Seq<char>>) -> Seq<TermOp>
    decreases lines.len(),
{
    if lines.len() == 0 {
        Seq::empty()
    } else {
        lines_spec(pattern, lines.drop_last()) + line_spec(pattern, lines.last())
    }
}

/// The operations that draw every line of `text`.
pub open spec fn text_spec(pattern: Seq<char>, text: Seq<char>) -> Seq<TermOp> {
    lines_spec(pattern, split_spec(text))
}

/// One file of a run: its banner, then either the report of the load error
/// or its highlighted lines followed by an empty line.
pub open spec fn section_spec(pattern: Seq<char>, path: Seq<char>, loaded: Result<String, String>) -> Seq<TermOp> {
    banner_spec(path) + match loaded {
        Ok(text) => text_spec(pattern, text@) + seq![TermOp::NewLine],
        Err(msg) => file_error_spec(path, msg@),
    }
}

/// The sections of each file, in the order given.
pub open spec fn files_spec(pattern: Seq<char>, sections: Seq<(String, Result<String, String>)>) -> Seq<TermOp>
    decreases sections.len(),
{
    if sections.len() == 0 {
        Seq::empty()
    } else {
        files_spec(pattern, sections.drop_last()) + section_spec(
            pattern,
            sections.last().0@,
            sections.last().1,
        )
    }
}

proof fn lemma_regions_cover_matches(pattern: Seq<char>, line: Seq<char>, regions: Seq<Region>)
    requires
        regions.len() == match_spans(pattern, line).len(),
        forall|i: int|
            0 <= i < regions.len() ==> region_of_span(line, match_spans(pattern, line)[i], #[trigger] regions[i]),
    ensures
        line_ops(line, regions) == line_spec(pattern, line),
{
    let spans = match_spans(pattern, line);
    assert forall|k: int| covered(regions, k) <==> match_covers(pattern, line, k) by {
        if covered(regions, k) {
            let j = choose|j: int| 0 <= j < regions.len() && (#[trigger] regions[j]).has(k);
            assert(region_of_span(line, spans[j], regions[j]));
        }
        if match_covers(pattern, line, k) {
            let j = choose|j: int|
                #![trigger spans[j]]
                0 <= j < spans.len() && char_index_of(line, spans[j].0 as int) <= k < char_index_of(
                    line,
                    spans[j].1 as int,
                );
            assert(region_of_span(line, spans[j], regions[j]));
            assert(regions[j].has(k));
        }
    }
    let a = line_ops(line, regions);
    let b = line_spec(pattern, line);
    assert forall|k: int| 0 <= k < a.len() implies a[k] == b[k] by {
        assert(a[k] == line_op_at(line, regions, k));
        assert(b[k] == match_op_at(pattern, line, k));
    }
    assert(a =~= b);
}

/// The terminal operations that draw `line` with the matches of `matcher`
/// highlighted.
pub fn highlight_line(matcher: &Matcher, line: &str) -> (r: Vec<TermOp>)
    ensures
        r@ == line_spec(matcher.pattern(), line@),
{
    let regions = matcher.find_regions(line);
    let r = render_line(line, &regions);
    proof {
        lemma_regions_cover_matches(matcher.pattern(), line@, regions@);
    }
    r
}

/// The terminal operations that draw every line of `text` with the matches
/// of `matcher` highlighted.
pub fn highlight_text(matcher: &Matcher, text: &str) -> (r: Vec<TermOp>)
    ensures
        r@ == text_spec(matcher.pattern(), text@),
{
    let lines = split_lines(text);
    let ghost views = string_views(lines@);
    let mut r: Vec<TermOp> = Vec::new();
    let mut i: usize = 0;
    assert(views.take(0) =~= Seq::<Seq<char>>::empty());
    while i < lines.len()
        invariant
            i <= lines@.len(),
            views == string_views(lines@),
            views == split_spec(text@),
            r@ == lines_spec(matcher.pattern(), views.take(i as int)),
        decreases lines@.len() - i,
    {
        let mut part = highlight_line(matcher, lines[i].as_str());
        r.append(&mut part);
        proof {
            assert(views.take(i + 1).drop_last() =~= views.take(i as int));
            assert(views.take(i + 1).last() == lines@[i as int]@);
        }
        i = i + 1;
    }
    assert(views.take(i as int) =~= views);
    r
}

/// One file of a run: its banner, then either the report of the error that
/// loading it gave, or its highlighted lines followed by an empty line.
pub fn file_section_ops(matcher: &Matcher, path: &str, loaded: &Result<String, String>) -> (r: Vec<TermOp>)
    ensures
        r@ == section_spec(matcher.pattern(), path@, *loaded),
{
    let mut r = banner_ops(path);
    match loaded {
        Ok(text) => {
            let mut body = highlight_text(matcher, text.as_str());
            r.append(&mut body);
            r.push(TermOp::NewLine);
        },
        Err(msg) => {
            let mut report = file_error_ops(path, msg.as_str());
            r.append(&mut report);
        },
    }
    r
}

/// A run over files: an empty line, then the section of each file in the
/// order given, whether it loaded or not.
pub fn files_ops(matcher: &Matcher, sections: &Vec<(String, Result<String, String>)>) -> (r: Vec<TermOp>)
    ensures
        r@ == seq![TermOp::NewLine] + files_spec(matcher.pattern(), sections@),
{
    let mut r: Vec<TermOp> = Vec::new();
    r.push(TermOp::NewLine);
    let mut i: usize = 0;
    assert(sections@.take(0) =~= Seq::<(String, Result<String, String>)>::empty());
    while i < sections.len()
        invariant
            i <= sections@.len(),
            r@ == seq![TermOp::NewLine] + files_spec(matcher.pattern(), sections@.take(i as int)),
        decreases sections@.len() - i,
    {
        let mut part = file_section_ops(matcher, sections[i].0.as_str(), &sections[i].1);
        r.append(&mut part);
        proof {
            assert(sections@.take(i + 1).drop_last() =~= sections@.take(i as int));
            assert(sections@.take(i + 1).last() == sections@[i as int]);
        }
        i = i + 1;
    }
    assert(sections@.take(i as int) =~= sections@);
    r
}

proof fn lemma_files_concat(
    pattern: Seq<char>,
    a: Seq<(String, Result<String, String>)>,
    b: Seq<(String, Result<String, String>)>,
)
    ensures
        files_spec(pattern, a + b) == files_spec(pattern, a) + files_spec(pattern, b),
    decreases b.len(),
{
    if b.len() == 0 {
        assert(a + b =~= a);
        assert(files_spec(pattern, a) + Seq::<TermOp>::empty() =~= files_spec(pattern, a));
    } else {
        assert((a + b).drop_last() =~= a + b.drop_last());
        assert((a + b).last() == b.last());
        lemma_files_concat(pattern, a, b.drop_last());
        assert(files_spec(pattern, a) + files_spec(pattern, b.drop_last()) + section_spec(
            pattern,
            b.last().0@,
            b.last().1,
        ) =~= files_spec(pattern, a) + (files_spec(pattern, b.drop_last()) + section_spec(
            pattern,
            b.last().0@,
            b.last().1,
        )));
    }
}

/// A file that fails to load costs only its own section: the files before
/// and after it are drawn exactly as they would be without it, and in its
/// place stand its banner and one report that names it and its error.
pub proof fn lemma_failed_file_isolated(
    pattern: Seq<char>,
    sections: Seq<(String, Result<String, String>)>,
    j: int,
)
    requires
        0 <= j < sections.len(),
        sections[j].1 is Err,
    ensures
        files_spec(pattern, sections) == files_spec(pattern, sections.take(j)) + banner_spec(
            sections[j].0@,
        ) + file_error_spec(sections[j].0@, sections[j].1->Err_0@) + files_spec(pattern, sections.skip(j + 1)),
{
    let one = seq![sections[j]];
    assert(sections =~= sections.take(j) + one + sections.skip(j + 1));
    lemma_files_concat(pattern, sections.take(j) + one, sections.skip(j + 1));
    lemma_files_concat(pattern, sections.take(j), one);
    assert(one.drop_last() =~= Seq::<(String, Result<String, String>)>::empty());
    assert(one.last() == sections[j]);
    assert(files_spec(pattern, one.drop_last()) == Seq::<TermOp>::empty());
    assert(Seq::<TermOp>::empty() + section_spec(pattern, sections[j].0@, sections[j].1) =~= section_spec(
        pattern,
        sections[j].0@,
        sections[j].1,
    ));
    assert(files_spec(pattern, one) == section_spec(pattern, sections[j].0@, sections[j].1));
    assert(files_spec(pattern, sections.take(j)) + banner_spec(sections[j].0@) + file_error_spec(
        sections[j].0@,
        sections[j].1->Err_0@,
    ) =~= files_spec(pattern, sections.take(j)) + (banner_spec(sections[j].0@) + file_error_spec(
        sections[j].0@,
        sections[j].1->Err_0@,
    )));
}

} // verus!
