use vstd::prelude::*;
use vstd::string::*;
use crate::attributes::{str_eq, AttrValue, AttributesMap};
use crate::op::Op;

verus! {

// ---------------------------------------------------------------------
// The mathematical model: segment streams and the HTML they render to.
// ---------------------------------------------------------------------

/// One operation's contribution to the segment stream.  `line` holds
/// the characters accumulated since the last newline; a newline closes
/// them as a line segment (`true`), a non-empty trailing remainder
/// becomes an inline segment (`false`).
pub open spec fn segs_acc(t: Seq<char>, line: Seq<char>) -> Seq<(bool, Seq<char>)>
    decreases t.len(),
{
    if t.len() == 0 {
        if line.len() == 0 {
            Seq::empty()
        } else {
            seq![(false, line)]
        }
    } else if t[0] == '\n' {
        seq![(true, line)] + segs_acc(t.drop_first(), Seq::empty())
    } else {
        segs_acc(t.drop_first(), line.push(t[0]))
    }
}

/// Tags every segment of one operation with that operation's attribute
/// map.
pub open spec fn tag_segs(ss: Seq<(bool, Seq<char>)>, attrs: AttributesMap) -> Seq<
    (bool, Seq<char>, AttributesMap),
> {
    ss.map_values(|p: (bool, Seq<char>)| (p.0, p.1, attrs))
}

/// The segment stream of the operations from index `i` on: only text
/// inserts contribute, in operation order.
pub open spec fn segs_of_ops(ops: Seq<Op>, i: int) -> Seq<(bool, Seq<char>, AttributesMap)>
    decreases ops.len() - i,
{
    if i < 0 || i >= ops.len() {
        Seq::empty()
    } else {
        tag_segs(segs_acc(ops[i].text_model(), Seq::empty()), ops[i].attrs_model()) + segs_of_ops(
            ops,
            i + 1,
        )
    }
}

/// Whether the boolean flag under `key` is set; absent or non-boolean
/// values count as off.
pub open spec fn flag_set(m: AttributesMap, key: Seq<char>) -> bool {
    match m.spec_get(key) {
        Some(AttrValue::Bool(b)) => b,
        _ => false,
    }
}

/// The numeric header level, when the `header` attribute holds an
/// unsigned number; any other value falls back to `None`.
pub open spec fn header_level(m: AttributesMap) -> Option<u64> {
    match m.spec_get("header"@) {
        Some(AttrValue::UInt(n)) => Some(n),
        _ => None,
    }
}

/// The list kinds a line may declare.
#[derive(Debug, Clone, Copy, PartialEq, Eq, Structural)]
pub enum ListType {
    Ordered,
    Bullet,
}

/// The list kind the `list` attribute declares, if it holds one of the
/// two recognized names; any other value falls back to `None`.
pub open spec fn spec_list_tag(m: AttributesMap) -> Option<ListType> {
    match m.spec_get("list"@) {
        Some(AttrValue::Text(s)) => if s@ == "ordered"@ {
            Some(ListType::Ordered)
        } else if s@ == "bullet"@ {
            Some(ListType::Bullet)
        } else {
            None
        },
        _ => None,
    }
}

/// Inline text wrapped in its formatting tags.  The nesting order is
/// fixed: strike outermost, then underline, then italic, bold
/// innermost.
pub open spec fn wrap_inline(t: Seq<char>, m: AttributesMap) -> Seq<char> {
    let s1 = if flag_set(m, "bold"@) {
        "<b>"@ + t + "</b>"@
    } else {
        t
    };
    let s2 = if flag_set(m, "italic"@) {
        "<em>"@ + s1 + "</em>"@
    } else {
        s1
    };
    let s3 = if flag_set(m, "underline"@) {
        "<u>"@ + s2 + "</u>"@
    } else {
        s2
    };
    if flag_set(m, "strike"@) {
        "<s>"@ + s3 + "</s>"@
    } else {
        s3
    }
}

/// The header level actually rendered: clamped to 1 through 6.
pub open spec fn clamp_level(n: u64) -> u64 {
    if n < 1 {
        1
    } else if n > 6 {
        6
    } else {
        n
    }
}

/// The opening tag of a heading of (clamped) level `n`.
pub open spec fn h_open(n: u64) -> Seq<char> {
    let l = clamp_level(n);
    if l == 1 {
        "<h1>"@
    } else if l == 2 {
        "<h2>"@
    } else if l == 3 {
        "<h3>"@
    } else if l == 4 {
        "<h4>"@
    } else if l == 5 {
        "<h5>"@
    } else {
        "<h6>"@
    }
}

/// The closing tag of a heading of (clamped) level `n`.
pub open spec fn h_close(n: u64) -> Seq<char> {
    let l = clamp_level(n);
    if l == 1 {
        "</h1>"@
    } else if l == 2 {
        "</h2>"@
    } else if l == 3 {
        "</h3>"@
    } else if l == 4 {
        "</h4>"@
    } else if l == 5 {
        "</h5>"@
    } else {
        "</h6>"@
    }
}

/// The HTML emitted for a segment stream, given the pending inline
/// buffer and whether a list container is open.
///
/// An inline segment is buffered.  While a list is open, a line with a
/// list kind becomes an item (flushing the buffer into it) and a line
/// without one closes the container and is dispatched again.  Outside a
/// list, a line with a list kind opens a container (that opening line
/// itself is consumed unrendered), a line with a numeric header level
/// becomes a heading, and any other line a paragraph; headings and
/// paragraphs flush the buffer before their text.  At the end of the
/// stream an open container is closed and a non-empty buffer becomes a
/// final paragraph.
pub open spec fn render_segs(
    segs: Seq<(bool, Seq<char>, AttributesMap)>,
    buf: Seq<char>,
    in_list: bool,
) -> Seq<char>
    decreases segs.len(), (if in_list {
        1int
    } else {
        0int
    }),
{
    if segs.len() == 0 {
        (if in_list {
            "</ul>"@
        } else {
            Seq::<char>::empty()
        }) + (if buf.len() == 0 {
            Seq::<char>::empty()
        } else {
            "<p>"@ + buf + "</p>"@
        })
    } else {
        let seg = segs[0];
        if !seg.0 {
            render_segs(segs.drop_first(), buf + wrap_inline(seg.1, seg.2), in_list)
        } else if in_list {
            if spec_list_tag(seg.2) is Some {
                "<li>"@ + buf + seg.1 + "</li>"@ + render_segs(segs.drop_first(), Seq::empty(), true)
            } else {
                "</ul>"@ + render_segs(segs, buf, false)
            }
        } else if spec_list_tag(seg.2) is Some {
            "<ul>"@ + render_segs(segs.drop_first(), buf, true)
        } else {
            match header_level(seg.2) {
                Some(n) => h_open(n) + buf + seg.1 + h_close(n) + render_segs(
                    segs.drop_first(),
                    Seq::empty(),
                    false,
                ),
                None => "<p>"@ + buf + seg.1 + "</p>"@ + render_segs(
                    segs.drop_first(),
                    Seq::empty(),
                    false,
                ),
            }
        }
    }
}

/// The HTML for a whole delta: its segment stream rendered from a
/// fresh state.
pub open spec fn spec_render(ops: Seq<Op>) -> Seq<char> {
    render_segs(segs_of_ops(ops, 0), Seq::empty(), false)
}

// ---------------------------------------------------------------------
// Lemmas about the segmentation of one text.
// ---------------------------------------------------------------------

/// A text without newlines contributes at most one inline segment.
pub proof fn lemma_segs_acc_no_newline(t: Seq<char>, line: Seq<char>)
    requires
        forall|k: int| 0 <= k < t.len() ==> t[k] != '\n',
    ensures
        segs_acc(t, line) == (if line.len() + t.len() == 0 {
            Seq::<(bool, Seq<char>)>::empty()
        } else {
            seq![(false, line + t)]
        }),
    decreases t.len(),
{
    if t.len() == 0 {
        assert(line + t =~= line);
    } else {
        assert(t[0] != '\n');
        lemma_segs_acc_no_newline(t.drop_first(), line.push(t[0]));
        assert(line.push(t[0]) + t.drop_first() =~= line + t);
    }
}

/// Splitting at the first newline: the accumulated line closes there,
/// and the rest of the text restarts with an empty accumulator.
pub proof fn lemma_segs_acc_split(t: Seq<char>, line: Seq<char>, p: int)
    requires
        0 <= p < t.len(),
        t[p] == '\n',
        forall|k: int| 0 <= k < p ==> t[k] != '\n',
    ensures
        segs_acc(t, line) == seq![(true, line + t.take(p))] + segs_acc(
            t.skip(p + 1),
            Seq::<char>::empty(),
        ),
    decreases p,
{
    if p == 0 {
        assert(line + t.take(0) =~= line);
        assert(t.skip(1) =~= t.drop_first());
    } else {
        assert(t[0] != '\n');
        assert forall|k: int| 0 <= k < p - 1 implies t.drop_first()[k] != '\n' by {
            assert(t.drop_first()[k] == t[k + 1]);
        }
        assert(t.drop_first()[p - 1] == t[p]);
        lemma_segs_acc_split(t.drop_first(), line.push(t[0]), p - 1);
        assert(line.push(t[0]) + t.drop_first().take(p - 1) =~= line + t.take(p));
        assert(t.drop_first().skip(p) =~= t.skip(p + 1));
    }
}

// ---------------------------------------------------------------------
// The cursor over a delta's operations.
// ---------------------------------------------------------------------

/// One segment handed out by the cursor: a line closed by a newline, or
/// a trailing inline run.  `op_index` names the owning operation in the
/// delta.
pub enum LineVisitor {
    NewLine { text: String, op_index: usize },
    Inline { text: String, op_index: usize },
}

impl LineVisitor {
    /// Whether the segment is a completed line.
    pub open spec fn is_line(self) -> bool {
        self matches LineVisitor::NewLine { .. }
    }

    /// The segment's characters (the newline itself is never included).
    pub open spec fn spec_text(self) -> Seq<char> {
        match self {
            LineVisitor::NewLine { text, .. } => text@,
            LineVisitor::Inline { text, .. } => text@,
        }
    }

    /// The index of the owning operation.
    pub open spec fn spec_op_index(self) -> int {
        match self {
            LineVisitor::NewLine { op_index, .. } => op_index as int,
            LineVisitor::Inline { op_index, .. } => op_index as int,
        }
    }

    /// The segment as the model the rendering specification speaks of.
    pub open(crate) spec fn seg_model(self, ops: Seq<Op>) -> (bool, Seq<char>, AttributesMap) {
        (self.is_line(), self.spec_text(), ops[self.spec_op_index()].attrs_model())
    }
}

impl Clone for LineVisitor {
    fn clone(&self) -> (r: Self)
        ensures
            r == *self,
    {
        match self {
            LineVisitor::NewLine { text, op_index } => LineVisitor::NewLine {
                text: text.clone(),
                op_index: *op_index,
            },
            LineVisitor::Inline { text, op_index } => LineVisitor::Inline {
                text: text.clone(),
                op_index: *op_index,
            },
        }
    }
}

/// The index of the first newline at or after `from`, if any.
fn find_newline(t: &str, from: usize, tlen: usize) -> (r: Option<usize>)
    requires
        tlen == t@.len(),
        from <= tlen,
    ensures
        match r {
            Some(j) => from <= j < t@.len() && t@[j as int] == '\n' && (forall|k: int|
                from <= k < j ==> t@[k] != '\n'),
            None => forall|k: int| from <= k < t@.len() ==> t@[k] != '\n',
        },
{
    let mut i: usize = from;
    while i < tlen
        invariant
            tlen == t@.len(),
            from <= i <= tlen,
            forall|k: int| from <= k < i ==> t@[k] != '\n',
        decreases tlen - i,
    {
        if t.get_char(i) == '\n' {
            return Some(i);
        }
        i += 1;
    }
    None
}

/// A stateful cursor over a delta's operations.  It hands out line and
/// inline segments one at a time, keeps a one-slot cache holding the
/// most recently produced segment, and owns the pending inline HTML
/// buffer that block handlers flush.
pub struct OpVistorCtx {
    pub(crate) ops: Vec<Op>,
    pub(crate) op_index: usize,
    pub(crate) insert_index: usize,
    pub(crate) current: Option<LineVisitor>,
    pub(crate) inline_buf: String,
}

impl OpVistorCtx {
    /// The operations the cursor walks.
    pub open(crate) spec fn ops_model(self) -> Seq<Op> {
        self.ops@
    }

    /// The cached segment slot.
    pub open(crate) spec fn cur(self) -> Option<LineVisitor> {
        self.current
    }

    /// The segments not yet produced, from the scan position on.
    pub open(crate) spec fn tail_segs(self) -> Seq<(bool, Seq<char>, AttributesMap)> {
        if self.op_index < self.ops@.len() {
            tag_segs(
                segs_acc(
                    self.ops@[self.op_index as int].text_model().skip(self.insert_index as int),
                    Seq::empty(),
                ),
                self.ops@[self.op_index as int].attrs_model(),
            ) + segs_of_ops(self.ops@, self.op_index + 1)
        } else {
            Seq::empty()
        }
    }

    /// The cached segment (if any) followed by the segments still to be
    /// scanned.
    pub open(crate) spec fn pending(self) -> Seq<(bool, Seq<char>, AttributesMap)> {
        match self.current {
            Some(c) => seq![c.seg_model(self.ops@)] + self.tail_segs(),
            None => self.tail_segs(),
        }
    }

    /// The characters of the pending inline buffer.
    pub open(crate) spec fn buf_model(self) -> Seq<char> {
        self.inline_buf@
    }

    /// The scan position is inside the operation list, the character
    /// offset inside the current operation's text, and the cached
    /// segment names a text insert of the list.
    pub open(crate) spec fn wf(self) -> bool {
        &&& self.op_index <= self.ops@.len()
        &&& (self.op_index < self.ops@.len() ==> self.insert_index <= self.ops@[self.op_index as int].text_model().len())
        &&& (match self.current {
            Some(c) => 0 <= c.spec_op_index() < self.ops@.len()
                && self.ops@[c.spec_op_index()].is_text_insert_spec(),
            None => true,
        })
    }

    /// The cache is in step with the scan position: it is empty only
    /// once no segment is left.
    pub open(crate) spec fn synced(self) -> bool {
        self.current is None ==> self.tail_segs().len() == 0
    }

    pub fn new(ops: Vec<Op>) -> (ctx: OpVistorCtx)
        ensures
            ctx.wf(),
            ctx.ops_model() == ops@,
            ctx.pending() == segs_of_ops(ops@, 0),
            ctx.buf_model() == Seq::<char>::empty(),
            ctx.cur() is None,
    {
        let ctx = OpVistorCtx {
            ops,
            op_index: 0,
            insert_index: 0,
            current: None,
            inline_buf: String::new(),
        };
        proof {
            if ctx.ops@.len() > 0 {
                assert(ctx.ops@[0].text_model().skip(0) =~= ctx.ops@[0].text_model());
            }
            assert(ctx.pending() == segs_of_ops(ctx.ops@, 0));
        }
        ctx
    }

    /// Whether inline text is waiting to be flushed into a block.
    pub fn has_inline(&self) -> (r: bool)
        ensures
            r == (self.buf_model().len() != 0),
    {
        !self.inline_buf.as_str().is_empty()
    }

    /// Appends raw HTML to the pending inline buffer.
    pub fn append_inline(&mut self, s: &str)
        ensures
            final(self).buf_model() == old(self).buf_model() + s@,
            final(self).pending() == old(self).pending(),
            final(self).ops_model() == old(self).ops_model(),
            old(self).wf() ==> final(self).wf(),
            old(self).synced() ==> final(self).synced(),
    {
        self.inline_buf.append(s);
        proof {
            assert(self.pending() == old(self).pending());
        }
    }

    /// Writes the pending inline buffer to `dest` and clears it.
    pub fn flush_inline(&mut self, dest: &mut String)
        ensures
            final(dest)@ == old(dest)@ + old(self).buf_model(),
            final(self).buf_model() == Seq::<char>::empty(),
            final(self).pending() == old(self).pending(),
            final(self).ops_model() == old(self).ops_model(),
            old(self).wf() ==> final(self).wf(),
            old(self).synced() ==> final(self).synced(),
    {
        if !self.inline_buf.as_str().is_empty() {
            dest.append(self.inline_buf.as_str());
            self.inline_buf = String::new();
        } else {
            proof {
                assert(old(dest)@ + old(self).buf_model() =~= old(dest)@);
            }
        }
        proof {
            assert(self.pending() == old(self).pending());
        }
    }

    /// Discards the cached segment and scans for the one after it,
    /// caching and returning it; `None` once the stream is exhausted.
    pub fn next(&mut self) -> (r: Option<LineVisitor>)
        requires
            old(self).wf(),
        ensures
            final(self).wf(),
            final(self).synced(),
            final(self).ops_model() == old(self).ops_model(),
            final(self).buf_model() == old(self).buf_model(),
            final(self).pending() == old(self).tail_segs(),
            old(self).cur() is Some ==> final(self).pending() == old(self).pending().drop_first(),
            old(self).cur() is None ==> final(self).pending() == old(self).pending(),
            r == final(self).cur(),
            (final(self).cur() is Some) == (final(self).pending().len() > 0),
    {
        proof {
            if old(self).current is Some {
                assert(old(self).pending().drop_first() =~= old(self).tail_segs());
            }
        }
        loop
            invariant
                self.wf(),
                self.ops@ == old(self).ops@,
                self.inline_buf@ == old(self).inline_buf@,
                self.tail_segs() == old(self).tail_segs(),
            decreases self.ops@.len() - self.op_index,
        {
            let ghost pre = *self;
            if self.op_index >= self.ops.len() {
                self.current = None;
                return None;
            }
            let idx: usize = self.op_index;
            let off: usize = self.insert_index;
            let mut produce: Option<(bool, String, usize)> = None;
            if self.ops[idx].is_text_insert() {
                let t: &str = self.ops[idx].value_as_string();
                let tlen: usize = t.unicode_len();
                if off < tlen {
                    match find_newline(t, off, tlen) {
                        Some(j) => {
                            produce = Some((true, t.substring_char(off, j).to_owned(), j + 1));
                        },
                        None => {
                            produce = Some((false, t.substring_char(off, tlen).to_owned(), tlen));
                        },
                    }
                }
            }
            match produce {
                Some((is_line, text, newoff)) => {
                    proof {
                        let tm = pre.ops@[idx as int].text_model();
                        let s = tm.skip(off as int);
                        if is_line {
                            let j = (newoff - 1) as int;
                            assert forall|k: int| 0 <= k < j - off implies s[k] != '\n' by {
                                assert(s[k] == tm[off + k]);
                            }
                            assert(s[j - off] == tm[j]);
                            lemma_segs_acc_split(s, Seq::<char>::empty(), j - off);
                            assert(Seq::<char>::empty() + s.take(j - off) =~= tm.subrange(
                                off as int,
                                j,
                            ));
                            assert(s.skip(j - off + 1) =~= tm.skip(newoff as int));
                        } else {
                            assert forall|k: int| 0 <= k < s.len() implies s[k] != '\n' by {
                                assert(s[k] == tm[off + k]);
                            }
                            lemma_segs_acc_no_newline(s, Seq::<char>::empty());
                            assert(Seq::<char>::empty() + s =~= tm.subrange(
                                off as int,
                                tm.len() as int,
                            ));
                            assert(tm.skip(newoff as int) =~= Seq::<char>::empty());
                            assert(segs_acc(tm.skip(newoff as int), Seq::<char>::empty())
                                =~= Seq::<(bool, Seq<char>)>::empty());
                        }
                    }
                    let lv = if is_line {
                        LineVisitor::NewLine { text, op_index: idx }
                    } else {
                        LineVisitor::Inline { text, op_index: idx }
                    };
                    self.insert_index = newoff;
                    self.current = Some(lv.clone());
                    proof {
                        let m = pre.ops@[idx as int].attrs_model();
                        let tm = pre.ops@[idx as int].text_model();
                        let s = tm.skip(off as int);
                        let head = (is_line, lv.spec_text(), m);
                        assert(tag_segs(segs_acc(s, Seq::<char>::empty()), m) =~= seq![head]
                            + tag_segs(
                            segs_acc(tm.skip(newoff as int), Seq::<char>::empty()),
                            m,
                        ));
                        assert(pre.tail_segs() =~= seq![head] + self.tail_segs());
                        assert(self.pending() =~= pre.tail_segs());
                    }
                    return Some(lv);
                },
                None => {
                    self.op_index = idx + 1;
                    self.insert_index = 0;
                    proof {
                        let tm = pre.ops@[idx as int].text_model();
                        assert(tm.skip(off as int) =~= Seq::<char>::empty());
                        assert(segs_acc(tm.skip(off as int), Seq::<char>::empty()) =~= Seq::<
                            (bool, Seq<char>),
                        >::empty());
                        if idx + 1 < self.ops@.len() {
                            assert(self.ops@[idx + 1].text_model().skip(0) =~= self.ops@[idx
                                + 1].text_model());
                        }
                        assert(self.tail_segs() =~= pre.tail_segs());
                    }
                },
            }
        }
    }

    /// The cached segment, computing it on first access; repeated calls
    /// do not advance the cursor.
    pub fn current(&mut self) -> (r: Option<LineVisitor>)
        requires
            old(self).wf(),
        ensures
            final(self).wf(),
            final(self).synced(),
            final(self).ops_model() == old(self).ops_model(),
            final(self).buf_model() == old(self).buf_model(),
            final(self).pending() == old(self).pending(),
            r == final(self).cur(),
            (final(self).cur() is Some) == (final(self).pending().len() > 0),
    {
        match &self.current {
            Some(c) => Some(c.clone()),
            None => self.next(),
        }
    }
}

// ---------------------------------------------------------------------
// Attribute queries of the block and inline handlers.
// ---------------------------------------------------------------------

/// Reads a boolean formatting flag; absent or non-boolean values count
/// as off.
fn get_flag(attrs: &AttributesMap, key: &str) -> (r: bool)
    ensures
        r == flag_set(*attrs, key@),
{
    match attrs.get(key) {
        Some(AttrValue::Bool(b)) => *b,
        _ => false,
    }
}

/// Reads the numeric header level, if any.
fn get_header_level(attrs: &AttributesMap) -> (r: Option<u64>)
    ensures
        r == header_level(*attrs),
{
    match attrs.get("header") {
        Some(AttrValue::UInt(n)) => Some(*n),
        _ => None,
    }
}

/// Reads the declared list kind, if the `list` attribute holds one of
/// the two recognized names.
fn get_list_tag(attrs: &AttributesMap) -> (r: Option<ListType>)
    ensures
        r == spec_list_tag(*attrs),
{
    match attrs.get("list") {
        Some(AttrValue::Text(s)) => {
            if str_eq(s.as_str(), "ordered") {
                Some(ListType::Ordered)
            } else if str_eq(s.as_str(), "bullet") {
                Some(ListType::Bullet)
            } else {
                None
            }
        },
        _ => None,
    }
}

/// Appends the opening tag of a heading of clamped level `n`.
fn push_h_open(dest: &mut String, n: u64)
    ensures
        final(dest)@ == old(dest)@ + h_open(n),
{
    let l: u64 = if n < 1 {
        1
    } else if n > 6 {
        6
    } else {
        n
    };
    if l == 1 {
        dest.append("<h1>");
    } else if l == 2 {
        dest.append("<h2>");
    } else if l == 3 {
        dest.append("<h3>");
    } else if l == 4 {
        dest.append("<h4>");
    } else if l == 5 {
        dest.append("<h5>");
    } else {
        dest.append("<h6>");
    }
}

/// Appends the closing tag of a heading of clamped level `n`.
fn push_h_close(dest: &mut String, n: u64)
    ensures
        final(dest)@ == old(dest)@ + h_close(n),
{
    let l: u64 = if n < 1 {
        1
    } else if n > 6 {
        6
    } else {
        n
    };
    if l == 1 {
        dest.append("</h1>");
    } else if l == 2 {
        dest.append("</h2>");
    } else if l == 3 {
        dest.append("</h3>");
    } else if l == 4 {
        dest.append("</h4>");
    } else if l == 5 {
        dest.append("</h5>");
    } else {
        dest.append("</h6>");
    }
}

// ---------------------------------------------------------------------
// The renderer: inline accumulation and the block handler chain.
// ---------------------------------------------------------------------

/// Wraps one inline run in its formatting tags and appends it to the
/// pending buffer; nothing is written to the output yet.
#[verifier::rlimit(100)]
fn inline_vistor(vistor: &mut OpVistorCtx, op_index: usize, text: &str)
    requires
        op_index < old(vistor).ops_model().len(),
    ensures
        final(vistor).buf_model() == old(vistor).buf_model() + wrap_inline(
            text@,
            old(vistor).ops_model()[op_index as int].attrs_model(),
        ),
        final(vistor).pending() == old(vistor).pending(),
        final(vistor).ops_model() == old(vistor).ops_model(),
        old(vistor).wf() ==> final(vistor).wf(),
        old(vistor).synced() ==> final(vistor).synced(),
{
    let ghost m = vistor.ops@[op_index as int].attrs_model();
    let is_bold: bool;
    let is_italic: bool;
    let is_underline: bool;
    let is_strike: bool;
    {
        let attrs = &vistor.ops[op_index].attributes;
        is_bold = get_flag(attrs, "bold");
        is_italic = get_flag(attrs, "italic");
        is_underline = get_flag(attrs, "underline");
        is_strike = get_flag(attrs, "strike");
    }
    if is_strike {
        vistor.append_inline("<s>");
    }
    if is_underline {
        vistor.append_inline("<u>");
    }
    if is_italic {
        vistor.append_inline("<em>");
    }
    if is_bold {
        vistor.append_inline("<b>");
    }
    vistor.append_inline(text);
    if is_bold {
        vistor.append_inline("</b>");
    }
    if is_italic {
        vistor.append_inline("</em>");
    }
    if is_underline {
        vistor.append_inline("</u>");
    }
    if is_strike {
        vistor.append_inline("</s>");
    }
    proof {
        assert(vistor.buf_model() =~= old(vistor).buf_model() + wrap_inline(text@, m));
    }
}

/// Renders a run of list lines into one container.  The handler claims
/// the stream only when the current segment is a line declaring a list
/// kind; that opening line is consumed unrendered, every following
/// list line becomes an item (the pending buffer flushes into it), and
/// the first line without a list kind closes the container and is left
/// for the next handler.
fn vistor_list(visitor: &mut OpVistorCtx, dest: &mut String) -> (claimed: bool)
    requires
        old(visitor).wf(),
        old(visitor).synced(),
    ensures
        final(visitor).wf(),
        final(visitor).synced(),
        final(visitor).ops_model() == old(visitor).ops_model(),
        claimed ==> old(visitor).pending().len() > 0 && final(visitor).pending().len() < old(visitor).pending().len() && final(dest)@ + render_segs(
            final(visitor).pending(),
            final(visitor).buf_model(),
            false,
        ) == old(dest)@ + render_segs(old(visitor).pending(), old(visitor).buf_model(), false),
        !claimed ==> final(visitor).pending() == old(visitor).pending() && final(visitor).buf_model() == old(visitor).buf_model() && final(dest)@ == old(dest)@ && !(old(visitor).pending().len() > 0 && old(visitor).pending()[0].0 && spec_list_tag(
            old(visitor).pending()[0].2,
        ) is Some),
{
    let ghost p0 = old(visitor).pending();
    let ghost b0 = old(visitor).buf_model();
    let ghost d0 = old(dest)@;
    let cur = visitor.current();
    match cur {
        Some(LineVisitor::NewLine { text: _, op_index }) => {
            proof {
                assert(op_index < visitor.ops@.len());
            }
            let tag = get_list_tag(&visitor.ops[op_index].attributes);
            if tag.is_some() {
                dest.append("<ul>");
                proof {
                    assert(visitor.pending()[0].2 == visitor.ops@[op_index as int].attrs_model());
                    assert(render_segs(p0, b0, false) == "<ul>"@ + render_segs(
                        p0.drop_first(),
                        b0,
                        true,
                    ));
                    assert(visitor.tail_segs() =~= p0.drop_first());
                    assert(dest@ =~= d0 + "<ul>"@);
                }
                loop
                    invariant_except_break
                        visitor.tail_segs().len() < p0.len(),
                        dest@ + render_segs(visitor.tail_segs(), visitor.buf_model(), true) == d0
                            + render_segs(p0, b0, false),
                    invariant
                        visitor.wf(),
                        visitor.ops@ == old(visitor).ops@,
                        p0.len() > 0,
                    ensures
                        visitor.wf(),
                        visitor.synced(),
                        visitor.ops@ == old(visitor).ops@,
                        visitor.pending().len() < p0.len(),
                        visitor.pending().len() == 0 || (visitor.pending()[0].0 && spec_list_tag(
                            visitor.pending()[0].2,
                        ) is None),
                        dest@ + render_segs(visitor.pending(), visitor.buf_model(), true) == d0
                            + render_segs(p0, b0, false),
                    decreases visitor.tail_segs().len(),
                {
                    let ghost tail_pre = visitor.tail_segs();
                    let ghost buf_pre = visitor.buf_model();
                    let c = visitor.next();
                    match c {
                        None => {
                            proof {
                                assert(visitor.pending() == tail_pre);
                                assert(visitor.pending().len() == 0);
                            }
                            break ;
                        },
                        Some(LineVisitor::NewLine { text, op_index }) => {
                            proof {
                                assert(op_index < visitor.ops@.len());
                            }
                            let new_tag = get_list_tag(&visitor.ops[op_index].attributes);
                            if new_tag.is_none() {
                                proof {
                                    assert(visitor.pending() == tail_pre);
                                    assert(visitor.pending()[0] == (true, text@, visitor.ops@[
                                        op_index as int].attrs_model()));
                                }
                                break ;
                            }
                            dest.append("<li>");
                            visitor.flush_inline(dest);
                            dest.append(text.as_str());
                            dest.append("</li>");
                            proof {
                                assert(visitor.pending() == tail_pre);
                                assert(tail_pre[0] == (true, text@, visitor.ops@[
                                    op_index as int].attrs_model()));
                                assert(render_segs(tail_pre, buf_pre, true) == "<li>"@ + buf_pre
                                    + text@ + "</li>"@ + render_segs(
                                    tail_pre.drop_first(),
                                    Seq::<char>::empty(),
                                    true,
                                ));
                                assert(visitor.tail_segs() =~= tail_pre.drop_first());
                                assert(dest@ + render_segs(
                                    visitor.tail_segs(),
                                    visitor.buf_model(),
                                    true,
                                ) =~= d0 + render_segs(p0, b0, false));
                            }
                        },
                        Some(LineVisitor::Inline { text, op_index }) => {
                            proof {
                                assert(op_index < visitor.ops@.len());
                                assert(visitor.pending() == tail_pre);
                                assert(tail_pre[0] == (false, text@, visitor.ops@[
                                    op_index as int].attrs_model()));
                            }
                            inline_vistor(visitor, op_index, text.as_str());
                            proof {
                                assert(render_segs(tail_pre, buf_pre, true) == render_segs(
                                    tail_pre.drop_first(),
                                    buf_pre + wrap_inline(
                                        text@,
                                        visitor.ops@[op_index as int].attrs_model(),
                                    ),
                                    true,
                                ));
                                assert(visitor.tail_segs() =~= tail_pre.drop_first());
                            }
                        },
                    }
                }
                dest.append("</ul>");
                proof {
                    let p = visitor.pending();
                    let b = visitor.buf_model();
                    if p.len() == 0 {
                        assert(render_segs(p, b, true) == "</ul>"@ + render_segs(p, b, false));
                    } else {
                        assert(render_segs(p, b, true) == "</ul>"@ + render_segs(p, b, false));
                    }
                    assert(dest@ + render_segs(p, b, false) =~= d0 + render_segs(p0, b0, false));
                }
                true
            } else {
                false
            }
        },
        _ => {
            false
        },
    }
}

/// Renders a line that declares a numeric header level into a heading,
/// consuming exactly that line; `false` when the current segment
/// claims no header.  The rendered level is clamped to 1 through 6.
fn vistor_header(visitor: &mut OpVistorCtx, dest: &mut String) -> (claimed: bool)
    requires
        old(visitor).wf(),
        old(visitor).synced(),
        old(visitor).pending().len() > 0 && old(visitor).pending()[0].0 ==> spec_list_tag(
            old(visitor).pending()[0].2,
        ) is None,
    ensures
        final(visitor).wf(),
        final(visitor).synced(),
        final(visitor).ops_model() == old(visitor).ops_model(),
        claimed ==> old(visitor).pending().len() > 0 && final(visitor).pending().len() < old(visitor).pending().len() && final(dest)@ + render_segs(
            final(visitor).pending(),
            final(visitor).buf_model(),
            false,
        ) == old(dest)@ + render_segs(old(visitor).pending(), old(visitor).buf_model(), false),
        !claimed ==> final(visitor).pending() == old(visitor).pending() && final(visitor).buf_model() == old(visitor).buf_model() && final(dest)@ == old(dest)@ && !(old(visitor).pending().len() > 0 && old(visitor).pending()[0].0 && header_level(
            old(visitor).pending()[0].2,
        ) is Some),
{
    let ghost p0 = old(visitor).pending();
    let ghost b0 = old(visitor).buf_model();
    let ghost d0 = old(dest)@;
    let cur = visitor.current();
    match cur {
        Some(LineVisitor::NewLine { text, op_index }) => {
            proof {
                assert(op_index < visitor.ops@.len());
            }
            let lvl = get_header_level(&visitor.ops[op_index].attributes);
            match lvl {
                Some(l) => {
                    proof {
                        assert(p0[0] == (true, text@, visitor.ops@[op_index as int].attrs_model()));
                        assert(render_segs(p0, b0, false) == h_open(l) + b0 + text@ + h_close(l)
                            + render_segs(p0.drop_first(), Seq::<char>::empty(), false));
                    }
                    push_h_open(dest, l);
                    visitor.flush_inline(dest);
                    dest.append(text.as_str());
                    push_h_close(dest, l);
                    let _ = visitor.next();
                    proof {
                        assert(visitor.pending() =~= p0.drop_first());
                        assert(dest@ + render_segs(visitor.pending(), visitor.buf_model(), false)
                            =~= d0 + render_segs(p0, b0, false));
                    }
                    true
                },
                None => false,
            }
        },
        _ => false,
    }
}

/// Drives the cursor over every segment, dispatching each line through
/// the list, header and paragraph handlers in that order, buffering
/// inline runs, and flushing trailing inline text as a final
/// paragraph.
fn walk_visitor(dest: &mut String, visitors: &mut OpVistorCtx)
    requires
        old(visitors).wf(),
    ensures
        final(dest)@ == old(dest)@ + render_segs(
            old(visitors).pending(),
            old(visitors).buf_model(),
            false,
        ),
        final(visitors).ops_model() == old(visitors).ops_model(),
{
    let ghost p0 = old(visitors).pending();
    let ghost b0 = old(visitors).buf_model();
    let ghost d0 = old(dest)@;
    loop
        invariant
            visitors.wf(),
            visitors.ops@ == old(visitors).ops@,
            dest@ + render_segs(visitors.pending(), visitors.buf_model(), false) == d0
                + render_segs(p0, b0, false),
        ensures
            visitors.pending().len() == 0,
            visitors.ops@ == old(visitors).ops@,
            dest@ + render_segs(visitors.pending(), visitors.buf_model(), false) == d0
                + render_segs(p0, b0, false),
        decreases visitors.pending().len(),
    {
        let ghost p_pre = visitors.pending();
        let ghost b_pre = visitors.buf_model();
        let cur = visitors.current();
        match cur {
            None => {
                break ;
            },
            Some(LineVisitor::NewLine { text, op_index }) => {
                if vistor_list(visitors, dest) {
                } else if vistor_header(visitors, dest) {
                } else {
                    proof {
                        assert(p_pre[0] == (true, text@, visitors.ops@[
                            op_index as int].attrs_model()));
                        assert(render_segs(p_pre, b_pre, false) == "<p>"@ + b_pre + text@ + "</p>"@
                            + render_segs(p_pre.drop_first(), Seq::<char>::empty(), false));
                    }
                    dest.append("<p>");
                    visitors.flush_inline(dest);
                    dest.append(text.as_str());
                    dest.append("</p>");
                    let _ = visitors.next();
                    proof {
                        assert(visitors.pending() =~= p_pre.drop_first());
                        assert(dest@ + render_segs(visitors.pending(), visitors.buf_model(), false)
                            =~= d0 + render_segs(p0, b0, false));
                    }
                }
            },
            Some(LineVisitor::Inline { text, op_index }) => {
                proof {
                    assert(op_index < visitors.ops@.len());
                    assert(p_pre[0] == (false, text@, visitors.ops@[op_index as int].attrs_model()));
                }
                inline_vistor(visitors, op_index, text.as_str());
                let _ = visitors.next();
                proof {
                    assert(visitors.pending() =~= p_pre.drop_first());
                    assert(render_segs(p_pre, b_pre, false) == render_segs(
                        p_pre.drop_first(),
                        b_pre + wrap_inline(text@, visitors.ops@[op_index as int].attrs_model()),
                        false,
                    ));
                }
            },
        }
    }
    let ghost p_end = visitors.pending();
    let ghost b_end = visitors.buf_model();
    if visitors.has_inline() {
        proof {
            assert(render_segs(p_end, b_end, false) =~= "<p>"@ + b_end + "</p>"@);
        }
        dest.append("<p>");
        visitors.flush_inline(dest);
        dest.append("</p>");
        proof {
            assert(dest@ =~= d0 + render_segs(p0, b0, false));
        }
    } else {
        proof {
            assert(render_segs(p_end, b_end, false) =~= Seq::<char>::empty());
            assert(dest@ =~= d0 + render_segs(p0, b0, false));
        }
    }
}

/// Renders a delta to HTML.
pub fn render_html(ops: Vec<Op>) -> (out: String)
    ensures
        out@ == spec_render(ops@),
{
    let mut visitors = OpVistorCtx::new(ops);
    let mut out = String::new();
    walk_visitor(&mut out, &mut visitors);
    proof {
        assert(Seq::<char>::empty() + spec_render(ops@) =~= spec_render(ops@));
    }
    out
}

} // verus!
