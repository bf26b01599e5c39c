use vstd::prelude::*;
use crate::attributes::{AttrValue, AttributesMap};
use crate::op::Op;
use crate::renderer::{
    h_close, h_open, header_level, render_segs, segs_acc, segs_of_ops, spec_list_tag, spec_render,
    tag_segs, wrap_inline, lemma_segs_acc_no_newline, lemma_segs_acc_split,
};

verus! {

/// One paragraph per segment, in order.
pub open spec fn paragraphs_of(ss: Seq<(bool, Seq<char>)>) -> Seq<char>
    decreases ss.len(),
{
    if ss.len() == 0 {
        Seq::empty()
    } else {
        "<p>"@ + ss[0].1 + "</p>"@ + paragraphs_of(ss.drop_first())
    }
}

/// A single operation's delta has exactly that operation's segments.
proof fn lemma_single_op_segs(op: Op)
    ensures
        segs_of_ops(seq![op], 0) == tag_segs(segs_acc(op.text_model(), Seq::empty()), op.attrs_model()),
{
    assert(seq![op][0] == op);
    assert(segs_of_ops(seq![op], 1) =~= Seq::<(bool, Seq<char>, AttributesMap)>::empty());
    assert(segs_of_ops(seq![op], 0) =~= tag_segs(
        segs_acc(op.text_model(), Seq::empty()),
        op.attrs_model(),
    ));
}

/// In any text's segmentation, only the last segment can be an inline
/// run, and an inline run is never empty.
proof fn lemma_segs_acc_shape(t: Seq<char>, line: Seq<char>)
    ensures
        forall|k: int| 0 <= k < segs_acc(t, line).len() - 1 ==> segs_acc(t, line)[k].0,
        forall|k: int|
            0 <= k < segs_acc(t, line).len() && !segs_acc(t, line)[k].0 ==> segs_acc(t, line)[k].1.len() > 0,
    decreases t.len(),
{
    let ss = segs_acc(t, line);
    if t.len() == 0 {
    } else if t[0] == '\n' {
        lemma_segs_acc_shape(t.drop_first(), Seq::empty());
        let rest = segs_acc(t.drop_first(), Seq::empty());
        assert(ss == seq![(true, line)] + rest);
        assert(ss[0] == (true, line));
        assert forall|k: int| 0 <= k < ss.len() - 1 implies ss[k].0 by {
            if k > 0 {
                assert(ss[k] == rest[k - 1]);
            }
        }
        assert forall|k: int| 0 <= k < ss.len() && !ss[k].0 implies ss[k].1.len() > 0 by {
            if k > 0 {
                assert(ss[k] == rest[k - 1]);
            }
        }
    } else {
        lemma_segs_acc_shape(t.drop_first(), line.push(t[0]));
        assert(ss == segs_acc(t.drop_first(), line.push(t[0])));
    }
}

/// With an empty attribute map every segment renders as its own
/// paragraph, provided inline runs are non-empty and stand last.
proof fn lemma_render_plain_segs(ss: Seq<(bool, Seq<char>)>, m: AttributesMap)
    requires
        m@.len() == 0,
        forall|k: int| 0 <= k < ss.len() - 1 ==> ss[k].0,
        forall|k: int| 0 <= k < ss.len() && !ss[k].0 ==> ss[k].1.len() > 0,
    ensures
        render_segs(tag_segs(ss, m), Seq::empty(), false) == paragraphs_of(ss),
    decreases ss.len(),
{
    let segs = tag_segs(ss, m);
    if ss.len() == 0 {
        assert(render_segs(segs, Seq::empty(), false) =~= Seq::<char>::empty());
    } else {
        assert(segs[0] == (ss[0].0, ss[0].1, m));
        assert(segs.drop_first() =~= tag_segs(ss.drop_first(), m));
        let rest = ss.drop_first();
        if ss[0].0 {
            assert(m.spec_get("list"@) is None);
            assert(m.spec_get("header"@) is None);
            assert forall|k: int| 0 <= k < rest.len() - 1 implies rest[k].0 by {
                assert(rest[k] == ss[k + 1]);
            }
            assert forall|k: int| 0 <= k < rest.len() && !rest[k].0 implies rest[k].1.len() > 0 by {
                assert(rest[k] == ss[k + 1]);
            }
            lemma_render_plain_segs(rest, m);
            assert(render_segs(segs, Seq::empty(), false) =~= "<p>"@ + ss[0].1 + "</p>"@
                + paragraphs_of(rest));
        } else {
            assert(ss.len() == 1);
            assert(wrap_inline(ss[0].1, m) == ss[0].1);
            assert(segs.drop_first().len() == 0);
            assert(render_segs(segs, Seq::empty(), false) == render_segs(
                segs.drop_first(),
                Seq::<char>::empty() + wrap_inline(ss[0].1, m),
                false,
            ));
            assert(Seq::<char>::empty() + wrap_inline(ss[0].1, m) =~= ss[0].1);
            assert(render_segs(segs.drop_first(), ss[0].1, false) =~= "<p>"@ + ss[0].1 + "</p>"@);
            assert(render_segs(segs, Seq::empty(), false) =~= "<p>"@ + ss[0].1 + "</p>"@);
            assert(paragraphs_of(rest) =~= Seq::<char>::empty());
            assert(paragraphs_of(ss) =~= "<p>"@ + ss[0].1 + "</p>"@);
        }
    }
}

/// Inline formatting nests in a fixed order no matter how the
/// attributes were declared: a single unterminated text insert renders
/// as one paragraph around `wrap_inline`, which places strike
/// outermost, then underline, then italic, then bold around the text.
pub proof fn lemma_inline_nesting(op: Op)
    requires
        op.is_text_insert_spec(),
        op.text_model().len() > 0,
        forall|k: int| 0 <= k < op.text_model().len() ==> op.text_model()[k] != '\n',
    ensures
        spec_render(seq![op]) == "<p>"@ + wrap_inline(op.text_model(), op.attrs_model()) + "</p>"@,
{
    let t = op.text_model();
    let m = op.attrs_model();
    lemma_single_op_segs(op);
    lemma_segs_acc_no_newline(t, Seq::empty());
    assert(Seq::<char>::empty() + t =~= t);
    assert(segs_acc(t, Seq::empty()) =~= seq![(false, t)]);
    let segs = tag_segs(seq![(false, t)], m);
    assert(segs =~= seq![(false, t, m)]);
    assert(render_segs(segs, Seq::empty(), false) == render_segs(
        segs.drop_first(),
        Seq::<char>::empty() + wrap_inline(t, m),
        false,
    ));
    assert(segs.drop_first().len() == 0);
    assert(Seq::<char>::empty() + wrap_inline(t, m) =~= wrap_inline(t, m));
    assert(wrap_inline(t, m).len() > 0);
    assert(render_segs(segs, Seq::empty(), false) =~= "<p>"@ + wrap_inline(t, m) + "</p>"@);
}

/// Rendering a single plain text insert with no newline yields exactly
/// one paragraph wrapping the text verbatim.
pub proof fn lemma_single_inline_paragraph(op: Op)
    requires
        op.is_text_insert_spec(),
        op.text_model().len() > 0,
        forall|k: int| 0 <= k < op.text_model().len() ==> op.text_model()[k] != '\n',
        op.attrs_model()@.len() == 0,
    ensures
        spec_render(seq![op]) == "<p>"@ + op.text_model() + "</p>"@,
{
    lemma_inline_nesting(op);
    assert(wrap_inline(op.text_model(), op.attrs_model()) == op.text_model());
}

/// Rendering one unattributed text insert splits it at its newlines:
/// one paragraph per line, in order, the newline characters omitted,
/// and a non-empty unterminated remainder becoming a final paragraph.
pub proof fn lemma_plain_text_paragraphs(op: Op)
    requires
        op.is_text_insert_spec(),
        op.attrs_model()@.len() == 0,
    ensures
        spec_render(seq![op]) == paragraphs_of(segs_acc(op.text_model(), Seq::empty())),
{
    lemma_single_op_segs(op);
    lemma_segs_acc_shape(op.text_model(), Seq::empty());
    lemma_render_plain_segs(segs_acc(op.text_model(), Seq::empty()), op.attrs_model());
}

/// The single-line segment stream of a text insert whose text is one
/// line closed by a newline.
proof fn lemma_single_line_segs(op: Op)
    requires
        op.is_text_insert_spec(),
        op.text_model().len() > 0,
        op.text_model()[op.text_model().len() - 1] == '\n',
        forall|k: int| 0 <= k < op.text_model().len() - 1 ==> op.text_model()[k] != '\n',
    ensures
        segs_of_ops(seq![op], 0) == seq![
            (true, op.text_model().take(op.text_model().len() - 1), op.attrs_model()),
        ],
{
    let t = op.text_model();
    let m = op.attrs_model();
    let p = t.len() - 1;
    lemma_single_op_segs(op);
    lemma_segs_acc_split(t, Seq::empty(), p as int);
    assert(t.skip(p + 1) =~= Seq::<char>::empty());
    assert(segs_acc(t.skip(p + 1), Seq::empty()) =~= Seq::<(bool, Seq<char>)>::empty());
    assert(Seq::<char>::empty() + t.take(p as int) =~= t.take(p as int));
    assert(segs_acc(t, Seq::empty()) =~= seq![(true, t.take(p as int))]);
    assert(tag_segs(seq![(true, t.take(p as int))], m) =~= seq![(true, t.take(p as int), m)]);
}

/// A header attribute value above 6 renders as a level-6 heading.
pub proof fn lemma_header_clamped(op: Op, n: u64)
    requires
        op.is_text_insert_spec(),
        op.text_model().len() > 0,
        op.text_model()[op.text_model().len() - 1] == '\n',
        forall|k: int| 0 <= k < op.text_model().len() - 1 ==> op.text_model()[k] != '\n',
        header_level(op.attrs_model()) == Some(n),
        n > 6,
        spec_list_tag(op.attrs_model()) is None,
    ensures
        spec_render(seq![op]) == "<h6>"@ + op.text_model().take(op.text_model().len() - 1)
            + "</h6>"@,
{
    let t = op.text_model();
    let m = op.attrs_model();
    let line = t.take(t.len() - 1);
    lemma_single_line_segs(op);
    let segs = seq![(true, line, m)];
    assert(h_open(n) == "<h6>"@);
    assert(h_close(n) == "</h6>"@);
    assert(render_segs(segs, Seq::empty(), false) == h_open(n) + Seq::<char>::empty() + line
        + h_close(n) + render_segs(segs.drop_first(), Seq::empty(), false));
    assert(segs.drop_first().len() == 0);
    assert(render_segs(segs.drop_first(), Seq::empty(), false) =~= Seq::<char>::empty());
    assert(spec_render(seq![op]) =~= "<h6>"@ + line + "</h6>"@);
}

/// A line claiming neither a list kind nor a numeric header renders as
/// a plain paragraph.
proof fn lemma_line_paragraph_fallback(op: Op)
    requires
        op.is_text_insert_spec(),
        op.text_model().len() > 0,
        op.text_model()[op.text_model().len() - 1] == '\n',
        forall|k: int| 0 <= k < op.text_model().len() - 1 ==> op.text_model()[k] != '\n',
        header_level(op.attrs_model()) is None,
        spec_list_tag(op.attrs_model()) is None,
    ensures
        spec_render(seq![op]) == "<p>"@ + op.text_model().take(op.text_model().len() - 1)
            + "</p>"@,
{
    let t = op.text_model();
    let m = op.attrs_model();
    let line = t.take(t.len() - 1);
    lemma_single_line_segs(op);
    let segs = seq![(true, line, m)];
    assert(render_segs(segs, Seq::empty(), false) == "<p>"@ + Seq::<char>::empty() + line + "</p>"@
        + render_segs(segs.drop_first(), Seq::empty(), false));
    assert(segs.drop_first().len() == 0);
    assert(render_segs(segs.drop_first(), Seq::empty(), false) =~= Seq::<char>::empty());
    assert(spec_render(seq![op]) =~= "<p>"@ + line + "</p>"@);
}

/// A header attribute holding anything but an unsigned number falls
/// back to a plain paragraph.
pub proof fn lemma_header_non_numeric(op: Op, v: AttrValue)
    requires
        op.is_text_insert_spec(),
        op.text_model().len() > 0,
        op.text_model()[op.text_model().len() - 1] == '\n',
        forall|k: int| 0 <= k < op.text_model().len() - 1 ==> op.text_model()[k] != '\n',
        op.attrs_model().spec_get("header"@) == Some(v),
        !(v matches AttrValue::UInt(_)),
        spec_list_tag(op.attrs_model()) is None,
    ensures
        spec_render(seq![op]) == "<p>"@ + op.text_model().take(op.text_model().len() - 1)
            + "</p>"@,
{
    assert(header_level(op.attrs_model()) is None);
    lemma_line_paragraph_fallback(op);
}

/// A `list` value that is neither `ordered` nor `bullet` falls back to
/// a plain paragraph.
pub proof fn lemma_unrecognized_list(op: Op, s: String)
    requires
        op.is_text_insert_spec(),
        op.text_model().len() > 0,
        op.text_model()[op.text_model().len() - 1] == '\n',
        forall|k: int| 0 <= k < op.text_model().len() - 1 ==> op.text_model()[k] != '\n',
        op.attrs_model().spec_get("list"@) == Some(AttrValue::Text(s)),
        s@ != "ordered"@,
        s@ != "bullet"@,
        header_level(op.attrs_model()) is None,
    ensures
        spec_render(seq![op]) == "<p>"@ + op.text_model().take(op.text_model().len() - 1)
            + "</p>"@,
{
    assert(spec_list_tag(op.attrs_model()) is None);
    lemma_line_paragraph_fallback(op);
}

/// Rendering is a pure function of the operations alone: the same
/// delta rendered twice from independent fresh state gives
/// byte-identical output.
pub proof fn lemma_render_deterministic(ops1: Seq<Op>, ops2: Seq<Op>)
    requires
        ops1 == ops2,
    ensures
        spec_render(ops1) == spec_render(ops2),
{
}

} // verus!
