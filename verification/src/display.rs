//! The call tree as text: one line for each call path, with the number of
//! calls, the times in milliseconds and the place of the call path in the
//! tree.

use crate::pool::{
    children_in_order,
    lemma_children_lie_behind,
    CallPathPool,
    CallPathPoolId,
    TimingView,
};
use vstd::prelude::*;
use vstd::string::StringExecFns;

verus! {

/// `String::push` appends the character to the end of the string.
pub assume_specification[ String::push ](s: &mut String, ch: char)
    ensures
        final(s)@ == old(s)@.push(ch),
;

/// The character of a decimal digit.
pub open spec fn digit(d: nat) -> char {
    ('0' as nat + d) as char
}

/// The number in decimal digits, without leading zeros.
pub open spec fn decimal(n: nat) -> Seq<char>
    decreases n,
{
    if n < 10 {
        seq![digit(n)]
    } else {
        decimal(n / 10).push(digit(n % 10))
    }
}

/// `count` times the character `c`.
pub open spec fn repeated(c: char, count: nat) -> Seq<char> {
    Seq::new(count, |i: int| c)
}

/// The text, with as many `fill` characters in front as it takes to make
/// it `width` characters long.
pub open spec fn padded(text: Seq<char>, width: nat, fill: char) -> Seq<char> {
    if text.len() < width {
        repeated(fill, (width - text.len()) as nat) + text
    } else {
        text
    }
}

/// Appends `count` times the character `c`.
fn push_repeated(out: &mut String, c: char, count: usize)
    ensures
        final(out)@ == old(out)@ + repeated(c, count as nat),
{
    let mut done: usize = 0;
    while done < count
        invariant
            done <= count,
            out@ == old(out)@ + repeated(c, done as nat),
        decreases count - done,
    {
        out.push(c);
        done += 1;
        assert(out@ =~= old(out)@ + repeated(c, done as nat));
    }
}

/// Appends `n` in decimal digits.
fn collect_decimal(digits: &mut Vec<char>, n: u128)
    ensures
        final(digits)@ == old(digits)@ + decimal(n as nat),
    decreases n,
{
    if n >= 10 {
        collect_decimal(digits, n / 10);
    }
    let d = (n % 10) as u8;
    digits.push((48u8 + d) as char);
    assert(digits@ =~= old(digits)@ + decimal(n as nat));
}

/// Appends the characters of `text`.
fn push_chars(out: &mut String, text: &Vec<char>)
    ensures
        final(out)@ == old(out)@ + text@,
{
    let mut done: usize = 0;
    while done < text.len()
        invariant
            done <= text@.len(),
            out@ == old(out)@ + text@.take(done as int),
        decreases text@.len() - done,
    {
        out.push(text[done]);
        done += 1;
        assert(out@ =~= old(out)@ + text@.take(done as int));
    }
    assert(text@.take(done as int) =~= text@);
}

/// Appends `n` in decimal digits, filled up with `fill` to `width` characters.
fn push_padded(out: &mut String, n: u128, width: usize, fill: char)
    ensures
        final(out)@ == old(out)@ + padded(decimal(n as nat), width as nat, fill),
{
    let mut digits: Vec<char> = Vec::new();
    collect_decimal(&mut digits, n);
    assert(digits@ =~= decimal(n as nat));
    if digits.len() < width {
        push_repeated(out, fill, width - digits.len());
    }
    push_chars(out, &digits);
    assert(out@ =~= old(out)@ + padded(decimal(n as nat), width as nat, fill));
}

/// The two lines above the call paths.
pub open spec fn header(left_margin: nat) -> Seq<char> {
    repeated(' ', left_margin)
        + "    # calls │   ∑ alive ms │    ∑ busy ms │ ∑ own busy ms │ span tree\n"@
        + repeated(' ', left_margin)
        + "────────────┼──────────────┼──────────────┼────────────-──┼───────────────────────\n"@
}

/// A time in milliseconds, with the microseconds behind the point. The
/// milliseconds are filled up with blanks to eight characters.
pub open spec fn millis(nanos: nat) -> Seq<char> {
    let micros = nanos / 1000;
    padded(decimal(micros / 1000), 8, ' ') + "."@ + padded(decimal(micros % 1000), 3, '0')
}

/// Margin, calls and times of a call path: the part of its line in front
/// of the tree.
pub open spec fn columns(timing: TimingView, left_margin: nat) -> Seq<char> {
    repeated(' ', left_margin) + padded(decimal(timing.call_count / 1000), 7, ' ') + " "@ + padded(
        decimal(timing.call_count % 1000),
        3,
        '0',
    ) + " ┊ "@ + millis(timing.span_alive) + " ┊ "@ + millis(timing.sum_with_children) + " ┊  "@
        + millis(timing.sum_own) + " ┊ "@
}

/// The line that continues the tree through a level: nothing below a last
/// child, a guide below any other.
pub open spec fn guide(is_last: bool) -> char {
    if is_last {
        ' '
    } else {
        '┊'
    }
}

/// The drawing that places a call path in the tree. `last` says, for the
/// root and then for each call path on the way down to this one, whether
/// it is the last child of its parent.
pub open spec fn branches(last: Seq<bool>, has_children: bool) -> Seq<char> {
    let down = if has_children {
        "┬"@
    } else {
        "─"@
    };
    if last.len() <= 1 {
        down
    } else {
        let across = if last.last() {
            "╰"@
        } else {
            "├"@
        };
        last.subrange(1, last.len() - 1).map_values(|is_last: bool| guide(is_last)) + across + down
    }
}

/// The line of the call path `node`.
pub open spec fn row(p: Seq<TimingView>, node: int, last: Seq<bool>, left_margin: nat) -> Seq<char> {
    columns(p[node], left_margin) + branches(last, children_in_order(p, node).len() > 0) + " "@
        + p[node].meta.name@ + "\n"@
}

/// The lines of the call path `node` and of all call paths below it: its
/// own line first, then its children with all that is below them, in the
/// order of their ids.
pub open spec fn subtree(p: Seq<TimingView>, node: int, last: Seq<bool>, left_margin: nat) -> Seq<
    char,
>
    decreases p.len() - node, children_in_order(p, node).len() + 1,
{
    row(p, node, last, left_margin) + subtrees(p, node, 0, last, left_margin)
}

/// The lines of the children of `node` from the `i`-th on, each with all
/// that is below it.
pub open spec fn subtrees(
    p: Seq<TimingView>,
    node: int,
    i: int,
    last: Seq<bool>,
    left_margin: nat,
) -> Seq<char>
    decreases p.len() - node, children_in_order(p, node).len() - i,
{
    let children = children_in_order(p, node);
    if 0 <= i < children.len() {
        let child = children[i] as int;
        let below = if node < child < p.len() {
            subtree(p, child, last.push(i == children.len() - 1), left_margin)
        } else {
            Seq::empty()
        };
        below + subtrees(p, node, i + 1, last, left_margin)
    } else {
        Seq::empty()
    }
}

/// The call tree as a table: two lines of headings, then one line for
/// each call path, the root first.
pub open spec fn table(p: Seq<TimingView>, left_margin: nat) -> Seq<char> {
    header(left_margin) + subtree(p, 0, seq![true], left_margin)
}

/// Appends a time in milliseconds.
fn push_millis(out: &mut String, nanos: u128)
    ensures
        final(out)@ == old(out)@ + millis(nanos as nat),
{
    let micros = nanos / 1000;
    push_padded(out, micros / 1000, 8, ' ');
    out.append(".");
    push_padded(out, micros % 1000, 3, '0');
    assert(out@ =~= old(out)@ + millis(nanos as nat));
}

/// Appends margin, calls and times of the call path `node`.
fn push_columns(out: &mut String, pool: &CallPathPool, node: CallPathPoolId, left_margin: usize)
    requires
        node@ < pool@.len(),
    ensures
        final(out)@ == old(out)@ + columns(pool@[node@ as int], left_margin as nat),
{
    let timing = pool.get(node);
    let calls = timing.call_count() as u128;
    push_repeated(out, ' ', left_margin);
    push_padded(out, calls / 1000, 7, ' ');
    out.append(" ");
    push_padded(out, calls % 1000, 3, '0');
    out.append(" ┊ ");
    push_millis(out, timing.span_alive());
    out.append(" ┊ ");
    push_millis(out, timing.sum_with_children());
    out.append(" ┊  ");
    push_millis(out, timing.sum_without_children());
    out.append(" ┊ ");
    assert(out@ =~= old(out)@ + columns(pool@[node@ as int], left_margin as nat));
}

/// Appends the drawing that places a call path in the tree.
fn push_branches(out: &mut String, last: &Vec<bool>, has_children: bool)
    ensures
        final(out)@ == old(out)@ + branches(last@, has_children),
{
    let levels = last.len();
    if levels > 1 {
        let ghost guides = last@.subrange(1, levels - 1).map_values(|is_last: bool| guide(is_last));
        let mut level: usize = 1;
        while level < levels - 1
            invariant
                1 <= level <= levels - 1,
                levels == last@.len(),
                guides == last@.subrange(1, levels - 1).map_values(|is_last: bool| guide(is_last)),
                out@ == old(out)@ + guides.take(level - 1),
            decreases levels - level,
        {
            if last[level] {
                out.push(' ');
            } else {
                out.push('┊');
            }
            level += 1;
            assert(out@ =~= old(out)@ + guides.take(level - 1));
        }
        assert(guides.take(level - 1) =~= guides);
        if last[levels - 1] {
            out.append("╰");
        } else {
            out.append("├");
        }
    }
    if has_children {
        out.append("┬");
    } else {
        out.append("─");
    }
    assert(out@ =~= old(out)@ + branches(last@, has_children));
}

/// Appends the lines of the call path `node` and of all call paths below it.
fn push_subtree(
    out: &mut String,
    pool: &CallPathPool,
    node: CallPathPoolId,
    last: &mut Vec<bool>,
    left_margin: usize,
)
    requires
        node@ < pool@.len(),
    ensures
        final(out)@ == old(out)@ + subtree(pool@, node@ as int, old(last)@, left_margin as nat),
        final(last)@ == old(last)@,
    decreases pool@.len() - node@,
{
    let children = pool.children_of(node);
    let ghost p = pool@;
    let ghost on_the_way = last@;
    let ghost ids = children_in_order(p, node@ as int);
    proof {
        lemma_children_lie_behind(p, node@ as int, p.len() as int);
    }
    push_columns(out, pool, node, left_margin);
    push_branches(out, last, children.len() > 0);
    out.append(" ");
    out.append(pool.get(node).static_span_meta().name);
    out.append("\n");
    assert(out@ =~= old(out)@ + row(p, node@ as int, on_the_way, left_margin as nat));
    let mut i: usize = 0;
    while i < children.len()
        invariant
            i <= children@.len(),
            p == pool@,
            node@ < p.len(),
            ids == children_in_order(p, node@ as int),
            ids == children@.map_values(|id: CallPathPoolId| id@),
            forall|k: int| 0 <= k < ids.len() ==> node@ < #[trigger] ids[k] < p.len(),
            last@ == on_the_way,
            out@ + subtrees(p, node@ as int, i as int, on_the_way, left_margin as nat) == old(out)@
                + subtree(p, node@ as int, on_the_way, left_margin as nat),
        decreases children@.len() - i,
    {
        let child = children[i];
        assert(child@ == ids[i as int]);
        let ghost before = out@;
        last.push(i == children.len() - 1);
        push_subtree(out, pool, child, last, left_margin);
        last.pop();
        assert(last@ =~= on_the_way);
        proof {
            let below = subtree(
                p,
                child@ as int,
                on_the_way.push(i == ids.len() - 1),
                left_margin as nat,
            );
            let rest = subtrees(p, node@ as int, i + 1, on_the_way, left_margin as nat);
            assert(subtrees(p, node@ as int, i as int, on_the_way, left_margin as nat) == below
                + rest);
            assert(out@ + rest =~= before + (below + rest));
        }
        i += 1;
    }
    assert(subtrees(p, node@ as int, i as int, on_the_way, left_margin as nat) =~= Seq::<
        char,
    >::empty());
    assert(out@ =~= out@ + Seq::<char>::empty());
}

/// The text that announces the call tree of a root span: where the root
/// span was defined, an empty line, and the call tree as a table.
pub open spec fn call_summary(p: Seq<TimingView>, left_margin: nat) -> Seq<char> {
    let root = p[0].meta;
    let file = match root.file {
        Some(file) => file@,
        None => "unknown"@,
    };
    let line = match root.line {
        Some(line) => line as nat,
        None => 0,
    };
    "Call summary of "@ + root.name@ + "@"@ + file + ":"@ + decimal(line) + "\n\n"@ + table(
        p,
        left_margin,
    )
}

/// How a [`LoggingCallTreeCollector`] lays out its text.
pub struct Layout {
    /// The call depth to make room for ahead of time. It limits nothing.
    pub max_call_depth: nat,
    /// The number of blanks in front of every line of the table.
    pub left_margin: nat,
}

/// Turns finished call trees into text for the log.
pub struct LoggingCallTreeCollector {
    max_call_depth: usize,
    left_margin: usize,
}

impl View for LoggingCallTreeCollector {
    type V = Layout;

    closed spec fn view(&self) -> Layout {
        Layout {
            max_call_depth: self.max_call_depth as nat,
            left_margin: self.left_margin as nat,
        }
    }
}

/// Configure & build [`LoggingCallTreeCollector`]s.
pub struct LoggingCallTreeCollectorBuilder {
    max_call_depth: usize,
    left_margin: usize,
}

impl View for LoggingCallTreeCollectorBuilder {
    type V = Layout;

    closed spec fn view(&self) -> Layout {
        Layout {
            max_call_depth: self.max_call_depth as nat,
            left_margin: self.left_margin as nat,
        }
    }
}

impl LoggingCallTreeCollectorBuilder {
    /// The call depth that the collector makes room for ahead of time.
    pub fn max_call_depth(self, max_call_depth: usize) -> (builder: LoggingCallTreeCollectorBuilder)
        ensures
            builder@ == (Layout { max_call_depth: max_call_depth as nat, ..self@ }),
    {
        let mut builder = self;
        builder.max_call_depth = max_call_depth;
        builder
    }

    /// The number of blanks in front of every line of the table.
    pub fn left_margin(self, left_margin: usize) -> (builder: LoggingCallTreeCollectorBuilder)
        ensures
            builder@ == (Layout { left_margin: left_margin as nat, ..self@ }),
    {
        let mut builder = self;
        builder.left_margin = left_margin;
        builder
    }

    /// Build the [`LoggingCallTreeCollector`] as configured.
    pub fn build(self) -> (collector: LoggingCallTreeCollector)
        ensures
            collector@ == self@,
    {
        LoggingCallTreeCollector {
            max_call_depth: self.max_call_depth,
            left_margin: self.left_margin,
        }
    }
}

impl Default for LoggingCallTreeCollectorBuilder {
    fn default() -> (builder: LoggingCallTreeCollectorBuilder)
        ensures
            builder@ == (Layout { max_call_depth: 10, left_margin: 20 }),
    {
        LoggingCallTreeCollectorBuilder { max_call_depth: 10, left_margin: 20 }
    }
}

impl LoggingCallTreeCollector {
    /// The call tree as a table.
    pub fn table(&self, pool: &CallPathPool) -> (text: String)
        requires
            pool.wf(),
        ensures
            text@ == table(pool@, self@.left_margin),
    {
        let mut out = String::new();
        self.push_table(&mut out, pool);
        out
    }

    /// The text to log for the call tree of a root span that has closed.
    pub fn call_summary(&self, pool: &CallPathPool) -> (text: String)
        requires
            pool.wf(),
        ensures
            text@ == call_summary(pool@, self@.left_margin),
    {
        let root = pool.root().static_span_meta();
        let mut out = String::new();
        out.append("Call summary of ");
        out.append(root.name);
        out.append("@");
        match root.file {
            Some(file) => out.append(file),
            None => out.append("unknown"),
        }
        out.append(":");
        let line = match root.line {
            Some(line) => line as u128,
            None => 0,
        };
        let mut digits: Vec<char> = Vec::new();
        collect_decimal(&mut digits, line);
        push_chars(&mut out, &digits);
        out.append("\n\n");
        self.push_table(&mut out, pool);
        assert(out@ =~= call_summary(pool@, self@.left_margin));
        out
    }

    /// Appends the call tree as a table.
    fn push_table(&self, out: &mut String, pool: &CallPathPool)
        requires
            pool.wf(),
        ensures
            final(out)@ == old(out)@ + table(pool@, self@.left_margin),
    {
        push_repeated(out, ' ', self.left_margin);
        out.append("    # calls │   ∑ alive ms │    ∑ busy ms │ ∑ own busy ms │ span tree\n");
        push_repeated(out, ' ', self.left_margin);
        out.append(
            "────────────┼──────────────┼──────────────┼────────────-──┼───────────────────────\n",
        );
        // No call path lies deeper than there are call paths.
        let levels = if self.max_call_depth < pool.len() {
            self.max_call_depth
        } else {
            pool.len()
        };
        let mut last: Vec<bool> = Vec::with_capacity(levels);
        last.push(true);
        assert(last@ =~= seq![true]);
        push_subtree(out, pool, pool.root_id(), &mut last, self.left_margin);
        assert(out@ =~= old(out)@ + table(pool@, self@.left_margin));
    }
}

} // verus!
