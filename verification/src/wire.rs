//! The frames that a client reads, and the line of text that carries each.

use crate::encoding::{base64_len, base64_of, encode_base64, law_base64_determines_bytes};
use crate::json::{
    insert_flag, insert_number, insert_text, is_flat, new_object, object_fields, object_text, write_object,
    FieldValue, Fields,
};
use vstd::prelude::*;
use vstd::utf8::{encode_utf8, encode_utf8_decode_utf8};

verus! {

/// A frame of the stream. Every frame is one JSON object, named by its `type`.
pub enum OutputFrame {
    /// The stream is open; the pane has this size.
    StreamStarted { pane_id: String, cols: u16, rows: u16 },
    /// The visible screen, to be written verbatim to the client's emulator.
    Repaint { ansi: String, cols: u16, rows: u16 },
    /// Raw output in the order in which the pane produced it.
    Output { seq: u64, bytes: Vec<u8> },
    /// The pane has a new size.
    Resized { cols: u16, rows: u16 },
    /// Output was dropped because the client was too slow.
    Lag,
    /// The pane is gone.
    Closed,
    /// The stream cannot go on.
    Error { message: String },
}

/// The model of an [`OutputFrame`].
pub enum FrameView {
    StreamStarted { pane_id: Seq<char>, cols: u16, rows: u16 },
    Repaint { ansi: Seq<char>, cols: u16, rows: u16 },
    Output { seq: u64, bytes: Seq<u8> },
    Resized { cols: u16, rows: u16 },
    Lag,
    Closed,
    Error { message: Seq<char> },
}

impl View for OutputFrame {
    type V = FrameView;

    open spec fn view(&self) -> FrameView {
        match self {
            OutputFrame::StreamStarted { pane_id, cols, rows } => FrameView::StreamStarted {
                pane_id: pane_id@,
                cols: *cols,
                rows: *rows,
            },
            OutputFrame::Repaint { ansi, cols, rows } => FrameView::Repaint {
                ansi: ansi@,
                cols: *cols,
                rows: *rows,
            },
            OutputFrame::Output { seq, bytes } => FrameView::Output { seq: *seq, bytes: bytes@ },
            OutputFrame::Resized { cols, rows } => FrameView::Resized { cols: *cols, rows: *rows },
            OutputFrame::Lag => FrameView::Lag,
            OutputFrame::Closed => FrameView::Closed,
            OutputFrame::Error { message } => FrameView::Error { message: message@ },
        }
    }
}

/// The model of a frame holds what the frame holds.
pub proof fn law_frame_model_is_faithful(frame: OutputFrame)
    ensures
        match frame {
            OutputFrame::StreamStarted { pane_id, cols, rows } => frame@
                == (FrameView::StreamStarted { pane_id: pane_id@, cols, rows }),
            OutputFrame::Repaint { ansi, cols, rows } => frame@ == (FrameView::Repaint {
                ansi: ansi@,
                cols,
                rows,
            }),
            OutputFrame::Output { seq, bytes } => frame@ == (FrameView::Output {
                seq,
                bytes: bytes@,
            }),
            OutputFrame::Resized { cols, rows } => frame@ == (FrameView::Resized { cols, rows }),
            OutputFrame::Lag => frame@ == FrameView::Lag,
            OutputFrame::Closed => frame@ == FrameView::Closed,
            OutputFrame::Error { message } => frame@ == (FrameView::Error { message: message@ }),
        },
{
}

/// The raw bytes that a frame carries in its `data` field.
pub open spec fn frame_data(frame: FrameView) -> Seq<u8> {
    match frame {
        FrameView::Repaint { ansi, .. } => encode_utf8(ansi),
        FrameView::Output { bytes, .. } => bytes,
        _ => Seq::empty(),
    }
}

/// The fields of a frame's JSON object.
pub open spec fn frame_fields(frame: FrameView) -> Fields {
    match frame {
        FrameView::StreamStarted { pane_id, cols, rows } => Map::empty()
            .insert("type"@, FieldValue::Text("stream_started"@))
            .insert("pane_id"@, FieldValue::Text(pane_id))
            .insert("cols"@, FieldValue::Number(cols as int))
            .insert("rows"@, FieldValue::Number(rows as int)),
        FrameView::Repaint { ansi, cols, rows } => Map::empty()
            .insert("type"@, FieldValue::Text("repaint"@))
            .insert("data"@, FieldValue::Text(base64_of(encode_utf8(ansi))))
            .insert("cols"@, FieldValue::Number(cols as int))
            .insert("rows"@, FieldValue::Number(rows as int)),
        FrameView::Output { seq, bytes } => Map::empty()
            .insert("type"@, FieldValue::Text("output"@))
            .insert("seq"@, FieldValue::Number(seq as int))
            .insert("data"@, FieldValue::Text(base64_of(bytes))),
        FrameView::Resized { cols, rows } => Map::empty()
            .insert("type"@, FieldValue::Text("resized"@))
            .insert("cols"@, FieldValue::Number(cols as int))
            .insert("rows"@, FieldValue::Number(rows as int)),
        FrameView::Lag => Map::empty()
            .insert("type"@, FieldValue::Text("lag"@))
            .insert("dropped"@, FieldValue::Flag(true)),
        FrameView::Closed => Map::empty()
            .insert("type"@, FieldValue::Text("closed"@))
            .insert("reason"@, FieldValue::Text("pane_exited"@)),
        FrameView::Error { message } => Map::empty()
            .insert("type"@, FieldValue::Text("error"@))
            .insert("message"@, FieldValue::Text(message)),
    }
}

/// Every frame's object has scalar fields only.
proof fn lemma_frame_fields_are_flat(frame: FrameView)
    ensures
        is_flat(frame_fields(frame)),
{
}

/// The line that carries a frame: its JSON object and a line feed.
pub open spec fn frame_line(frame: FrameView) -> Seq<char> {
    object_text(frame_fields(frame)).push('\n')
}

proof fn lemma_utf8_determines_chars(left: Seq<char>, right: Seq<char>)
    requires
        encode_utf8(left) == encode_utf8(right),
    ensures
        left == right,
{
    encode_utf8_decode_utf8(left);
    encode_utf8_decode_utf8(right);
}

/// The names of the fields that tell frames apart are different, and so are
/// the values of `type`.
proof fn lemma_names_differ()
    ensures
        "type"@ != "pane_id"@,
        "type"@ != "cols"@,
        "type"@ != "rows"@,
        "type"@ != "data"@,
        "type"@ != "seq"@,
        "type"@ != "dropped"@,
        "type"@ != "reason"@,
        "type"@ != "message"@,
        "pane_id"@ != "cols"@,
        "pane_id"@ != "rows"@,
        "data"@ != "cols"@,
        "data"@ != "rows"@,
        "data"@ != "seq"@,
        "cols"@ != "rows"@,
{
    reveal_strlit("type");
    reveal_strlit("pane_id");
    reveal_strlit("cols");
    reveal_strlit("rows");
    reveal_strlit("data");
    reveal_strlit("seq");
    reveal_strlit("dropped");
    reveal_strlit("reason");
    reveal_strlit("message");
    assert("type"@[0] == 't');
    assert("cols"@[0] == 'c');
    assert("rows"@[0] == 'r');
    assert("data"@[0] == 'd');
    assert("pane_id"@.len() == 7);
    assert("message"@.len() == 7);
}

/// The value of a frame's `type` field.
spec fn frame_type(frame: FrameView) -> Seq<char> {
    match frame {
        FrameView::StreamStarted { .. } => "stream_started"@,
        FrameView::Repaint { .. } => "repaint"@,
        FrameView::Output { .. } => "output"@,
        FrameView::Resized { .. } => "resized"@,
        FrameView::Lag => "lag"@,
        FrameView::Closed => "closed"@,
        FrameView::Error { .. } => "error"@,
    }
}

proof fn lemma_types_differ()
    ensures
        "stream_started"@.len() == 14,
        "repaint"@.len() == 7,
        "resized"@.len() == 7,
        "repaint"@ != "resized"@,
        "output"@.len() == 6,
        "closed"@.len() == 6,
        "output"@ != "closed"@,
        "lag"@.len() == 3,
        "error"@.len() == 5,
{
    reveal_strlit("stream_started");
    reveal_strlit("repaint");
    reveal_strlit("resized");
    reveal_strlit("output");
    reveal_strlit("closed");
    reveal_strlit("lag");
    reveal_strlit("error");
    assert("repaint"@[2] == 'p');
    assert("resized"@[2] == 's');
    assert("output"@[0] == 'o');
    assert("closed"@[0] == 'c');
}

/// The object of a frame says what the frame says: each of its values stands under
/// the name that a client looks for, raw bytes and screens as the base64 of those
/// very bytes, and there is no other field.
pub proof fn law_fields_hold_values(frame: FrameView)
    ensures
        ({
            let fields = frame_fields(frame);
            match frame {
                FrameView::StreamStarted { pane_id, cols, rows } => {
                    &&& fields.dom() == set!["type"@, "pane_id"@, "cols"@, "rows"@]
                    &&& fields["type"@] == FieldValue::Text("stream_started"@)
                    &&& fields["pane_id"@] == FieldValue::Text(pane_id)
                    &&& fields["cols"@] == FieldValue::Number(cols as int)
                    &&& fields["rows"@] == FieldValue::Number(rows as int)
                },
                FrameView::Repaint { ansi, cols, rows } => {
                    &&& fields.dom() == set!["type"@, "data"@, "cols"@, "rows"@]
                    &&& fields["type"@] == FieldValue::Text("repaint"@)
                    &&& fields["data"@] == FieldValue::Text(base64_of(encode_utf8(ansi)))
                    &&& frame_data(frame) == encode_utf8(ansi)
                    &&& fields["cols"@] == FieldValue::Number(cols as int)
                    &&& fields["rows"@] == FieldValue::Number(rows as int)
                },
                FrameView::Output { seq, bytes } => {
                    &&& fields.dom() == set!["type"@, "seq"@, "data"@]
                    &&& fields["type"@] == FieldValue::Text("output"@)
                    &&& fields["seq"@] == FieldValue::Number(seq as int)
                    &&& fields["data"@] == FieldValue::Text(base64_of(bytes))
                    &&& frame_data(frame) == bytes
                },
                FrameView::Resized { cols, rows } => {
                    &&& fields.dom() == set!["type"@, "cols"@, "rows"@]
                    &&& fields["type"@] == FieldValue::Text("resized"@)
                    &&& fields["cols"@] == FieldValue::Number(cols as int)
                    &&& fields["rows"@] == FieldValue::Number(rows as int)
                },
                FrameView::Lag => {
                    &&& fields.dom() == set!["type"@, "dropped"@]
                    &&& fields["type"@] == FieldValue::Text("lag"@)
                    &&& fields["dropped"@] == FieldValue::Flag(true)
                },
                FrameView::Closed => {
                    &&& fields.dom() == set!["type"@, "reason"@]
                    &&& fields["type"@] == FieldValue::Text("closed"@)
                    &&& fields["reason"@] == FieldValue::Text("pane_exited"@)
                },
                FrameView::Error { message } => {
                    &&& fields.dom() == set!["type"@, "message"@]
                    &&& fields["type"@] == FieldValue::Text("error"@)
                    &&& fields["message"@] == FieldValue::Text(message)
                },
            }
        }),
        !(frame is Repaint || frame is Output) ==> frame_data(frame).len() == 0,
{
    lemma_names_differ();
    let fields = frame_fields(frame);
    match frame {
        FrameView::StreamStarted { .. } => {
            assert(fields.dom() =~= set!["type"@, "pane_id"@, "cols"@, "rows"@]);
        },
        FrameView::Repaint { .. } => {
            assert(fields.dom() =~= set!["type"@, "data"@, "cols"@, "rows"@]);
        },
        FrameView::Output { .. } => {
            assert(fields.dom() =~= set!["type"@, "seq"@, "data"@]);
        },
        FrameView::Resized { .. } => {
            assert(fields.dom() =~= set!["type"@, "cols"@, "rows"@]);
        },
        FrameView::Lag => {
            assert(fields.dom() =~= set!["type"@, "dropped"@]);
        },
        FrameView::Closed => {
            assert(fields.dom() =~= set!["type"@, "reason"@]);
        },
        FrameView::Error { .. } => {
            assert(fields.dom() =~= set!["type"@, "message"@]);
        },
    }
}

/// A frame can be read back from the fields of its JSON object: different
/// frames have different fields.
pub proof fn law_fields_determine_frame(left: FrameView, right: FrameView)
    requires
        frame_fields(left) == frame_fields(right),
    ensures
        left == right,
{
    lemma_names_differ();
    lemma_types_differ();
    assert(frame_fields(left)["type"@] == FieldValue::Text(frame_type(left)));
    assert(frame_fields(right)["type"@] == FieldValue::Text(frame_type(right)));
    match (left, right) {
        (
            FrameView::Repaint { ansi: l, cols: lc, rows: lr },
            FrameView::Repaint { ansi: r, cols: rc, rows: rr },
        ) => {
            assert(frame_fields(left)["data"@] == FieldValue::Text(base64_of(encode_utf8(l))));
            assert(frame_fields(right)["data"@] == FieldValue::Text(base64_of(encode_utf8(r))));
            law_base64_determines_bytes(encode_utf8(l), encode_utf8(r));
            lemma_utf8_determines_chars(l, r);
            assert(frame_fields(left)["cols"@] == FieldValue::Number(lc as int));
            assert(frame_fields(right)["cols"@] == FieldValue::Number(rc as int));
            assert(frame_fields(left)["rows"@] == FieldValue::Number(lr as int));
            assert(frame_fields(right)["rows"@] == FieldValue::Number(rr as int));
        },
        (FrameView::Output { seq: ls, bytes: l }, FrameView::Output { seq: rs, bytes: r }) => {
            assert(frame_fields(left)["data"@] == FieldValue::Text(base64_of(l)));
            assert(frame_fields(right)["data"@] == FieldValue::Text(base64_of(r)));
            law_base64_determines_bytes(l, r);
            assert(frame_fields(left)["seq"@] == FieldValue::Number(ls as int));
            assert(frame_fields(right)["seq"@] == FieldValue::Number(rs as int));
        },
        (
            FrameView::StreamStarted { pane_id: l, cols: lc, rows: lr },
            FrameView::StreamStarted { pane_id: r, cols: rc, rows: rr },
        ) => {
            assert(frame_fields(left)["pane_id"@] == FieldValue::Text(l));
            assert(frame_fields(right)["pane_id"@] == FieldValue::Text(r));
            assert(frame_fields(left)["cols"@] == FieldValue::Number(lc as int));
            assert(frame_fields(right)["cols"@] == FieldValue::Number(rc as int));
            assert(frame_fields(left)["rows"@] == FieldValue::Number(lr as int));
            assert(frame_fields(right)["rows"@] == FieldValue::Number(rr as int));
        },
        (
            FrameView::Resized { cols: lc, rows: lr },
            FrameView::Resized { cols: rc, rows: rr },
        ) => {
            assert(frame_fields(left)["cols"@] == FieldValue::Number(lc as int));
            assert(frame_fields(right)["cols"@] == FieldValue::Number(rc as int));
            assert(frame_fields(left)["rows"@] == FieldValue::Number(lr as int));
            assert(frame_fields(right)["rows"@] == FieldValue::Number(rr as int));
        },
        (FrameView::Error { message: l }, FrameView::Error { message: r }) => {
            assert(frame_fields(left)["message"@] == FieldValue::Text(l));
            assert(frame_fields(right)["message"@] == FieldValue::Text(r));
        },
        _ => {},
    }
}

/// Whether `line` carries `frame` and nothing else: it is the frame's line, the
/// line feed at its end is the only one in it, and no other frame has it.
pub open spec fn carries(line: Seq<char>, frame: FrameView) -> bool {
    &&& line == frame_line(frame)
    &&& line.last() == '\n'
    &&& !line.drop_last().contains('\n')
    &&& forall|other: FrameView| #[trigger] frame_line(other) == line ==> other == frame
}

/// The lines of frames, in order.
pub open spec fn lines_of(frames: Seq<FrameView>) -> Seq<Seq<char>> {
    Seq::new(frames.len(), |i: int| frame_line(frames[i]))
}

/// Lines one after the other.
pub open spec fn joined(lines: Seq<Seq<char>>) -> Seq<char>
    decreases lines.len(),
{
    if lines.len() == 0 {
        Seq::empty()
    } else {
        joined(lines.drop_last()) + lines.last()
    }
}

/// What a reader makes of text: the lines that a line feed ends, with it, and what
/// follows the last of them.
pub open spec fn read_lines(text: Seq<char>) -> (Seq<Seq<char>>, Seq<char>)
    decreases text.len(),
{
    if text.len() == 0 {
        (Seq::empty(), Seq::empty())
    } else {
        let (lines, partial) = read_lines(text.drop_last());
        if text.last() == '\n' {
            (lines.push(partial.push('\n')), Seq::empty())
        } else {
            (lines, partial.push(text.last()))
        }
    }
}

proof fn lemma_read_partial(text: Seq<char>, more: Seq<char>)
    requires
        read_lines(text).1.len() == 0,
        !more.contains('\n'),
    ensures
        read_lines(text + more) == (read_lines(text).0, more),
    decreases more.len(),
{
    if more.len() == 0 {
        assert(text + more =~= text);
        assert(read_lines(text).1 =~= more);
    } else {
        assert forall|c: char| more.drop_last().contains(c) implies more.contains(c) by {
            let k = more.drop_last().index_of(c);
            assert(more[k] == c);
        }
        assert(more.contains(more.last())) by {
            assert(more[more.len() - 1] == more.last());
        }
        lemma_read_partial(text, more.drop_last());
        assert((text + more).drop_last() =~= text + more.drop_last());
        assert(more.drop_last().push(more.last()) =~= more);
    }
}

/// A reader gets back exactly the frames that were sent: splitting the text of any
/// number of lines at its line feeds gives those lines, with nothing left over,
/// and the lines belong to these frames and no others.
pub proof fn law_lines_read_back(frames: Seq<FrameView>, lines: Seq<Seq<char>>)
    requires
        frames.len() == lines.len(),
        forall|i: int| 0 <= i < lines.len() ==> carries(#[trigger] lines[i], frames[i]),
    ensures
        read_lines(joined(lines)) == (lines, Seq::<char>::empty()),
        forall|others: Seq<FrameView>|
            #[trigger] lines_of(others) == lines ==> others == frames,
    decreases lines.len(),
{
    if lines.len() > 0 {
        let line = lines.last();
        let before = lines.drop_last();
        assert forall|i: int| 0 <= i < before.len() implies carries(
            #[trigger] before[i],
            frames.drop_last()[i],
        ) by {
            assert(before[i] == lines[i]);
        }
        law_lines_read_back(frames.drop_last(), before);
        assert(carries(lines[lines.len() - 1], frames[lines.len() - 1]));
        assert(line.len() > 0) by {
            assert(line == object_text(frame_fields(frames.last())).push('\n'));
        }
        lemma_read_partial(joined(before), line.drop_last());
        assert((joined(before) + line).drop_last() =~= joined(before) + line.drop_last());
        assert((joined(before) + line).last() == '\n');
        assert(line.drop_last().push('\n') =~= line);
        assert(before.push(line) =~= lines);
    } else {
        assert(lines =~= Seq::<Seq<char>>::empty());
    }
    assert forall|others: Seq<FrameView>| #[trigger] lines_of(others) == lines implies others
        == frames by {
        assert(lines_of(others).len() == others.len());
        assert forall|i: int| 0 <= i < others.len() implies others[i] == frames[i] by {
            assert(carries(lines[i], frames[i]));
            assert(lines_of(others)[i] == frame_line(others[i]));
        }
        assert(others =~= frames);
    }
}

impl OutputFrame {
    /// The line to send for this frame.
    ///
    /// The line feed at its end is the only one in it, so a reader that splits
    /// at line feeds gets one frame per line; and no other frame has the same
    /// line.
    pub fn to_line(&self) -> (line: String)
        requires
            base64_len(frame_data(self@).len()) <= isize::MAX,
        ensures
            carries(line@, self@),
            line@ == object_text(frame_fields(self@)).push('\n'),
            !object_text(frame_fields(self@)).contains('\n'),
    {
        let mut object = new_object();
        match self {
            OutputFrame::StreamStarted { pane_id, cols, rows } => {
                insert_text(&mut object, "type", "stream_started");
                insert_text(&mut object, "pane_id", pane_id.as_str());
                insert_number(&mut object, "cols", *cols as u64);
                insert_number(&mut object, "rows", *rows as u64);
            },
            OutputFrame::Repaint { ansi, cols, rows } => {
                let data = encode_base64(ansi.as_str().as_bytes());
                insert_text(&mut object, "type", "repaint");
                insert_text(&mut object, "data", data.as_str());
                insert_number(&mut object, "cols", *cols as u64);
                insert_number(&mut object, "rows", *rows as u64);
            },
            OutputFrame::Output { seq, bytes } => {
                let data = encode_base64(bytes.as_slice());
                insert_text(&mut object, "type", "output");
                insert_number(&mut object, "seq", *seq);
                insert_text(&mut object, "data", data.as_str());
            },
            OutputFrame::Resized { cols, rows } => {
                insert_text(&mut object, "type", "resized");
                insert_number(&mut object, "cols", *cols as u64);
                insert_number(&mut object, "rows", *rows as u64);
            },
            OutputFrame::Lag => {
                insert_text(&mut object, "type", "lag");
                insert_flag(&mut object, "dropped", true);
            },
            OutputFrame::Closed => {
                insert_text(&mut object, "type", "closed");
                insert_text(&mut object, "reason", "pane_exited");
            },
            OutputFrame::Error { message } => {
                insert_text(&mut object, "type", "error");
                insert_text(&mut object, "message", message.as_str());
            },
        }
        assert(object_fields(object) == frame_fields(self@));
        proof {
            lemma_frame_fields_are_flat(self@);
        }
        let mut line = write_object(object);
        let ghost text = line@;
        line.append("\n");
        proof {
            reveal_strlit("\n");
            assert(line@ =~= text.push('\n'));
            assert(line@.drop_last() =~= text);
            assert forall|other: FrameView| #[trigger] frame_line(other) == line@ implies other
                == self@ by {
                assert(frame_line(other).drop_last() =~= object_text(frame_fields(other)));
                lemma_frame_fields_are_flat(other);
                law_fields_determine_frame(other, self@);
            }
        }
        line
    }
}

} // verus!
