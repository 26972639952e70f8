//! Server-sent events: a byte stream, in chunks of any size, as a sequence of frames.
use vstd::prelude::*;
use vstd::utf8::{
    decode_utf8, encode_utf8, encode_utf8_decode_utf8, encode_utf8_valid_utf8, valid_utf8,
};

use crate::json::optional_text;
use crate::text::{has_prefix, strip_prefix, trim, trimmed};

verus! {

/// `String::from_utf8`: the text whose UTF-8 form is `bytes`, if there is one.
#[verifier::external_body]
pub(crate) fn utf8_text(bytes: Vec<u8>) -> (r: Option<String>)
    ensures
        match r {
            Some(text) => encode_utf8(text@) == bytes@,
            None => !valid_utf8(bytes@),
        },
{
    String::from_utf8(bytes).ok()
}

/// One event of the stream.
#[derive(Debug)]
pub struct SseFrame {
    pub id: Option<String>,
    pub event: String,
    pub data: String,
}

/// What a frame holds.
pub struct FrameModel {
    pub id: Option<Seq<char>>,
    pub event: Seq<char>,
    pub data: Seq<char>,
}

impl View for SseFrame {
    type V = FrameModel;

    open spec fn view(&self) -> FrameModel {
        FrameModel { id: optional_text(self.id), event: self.event@, data: self.data@ }
    }
}

/// What a list of frames holds.
pub open spec fn frame_models(frames: Seq<SseFrame>) -> Seq<FrameModel> {
    frames.map_values(|frame: SseFrame| frame@)
}

/// The decoder between two chunks: the bytes of an unfinished line and the fields of an
/// unfinished frame.
#[derive(Debug)]
pub struct SseDecoder {
    buffer: Vec<u8>,
    id: String,
    event: String,
    data: String,
}

/// What a decoder holds between two bytes.
pub struct DecoderModel {
    pub buffer: Seq<u8>,
    pub id: Seq<char>,
    pub event: Seq<char>,
    pub data: Seq<char>,
}

impl View for SseDecoder {
    type V = DecoderModel;

    closed spec fn view(&self) -> DecoderModel {
        DecoderModel {
            buffer: self.buffer@,
            id: self.id@,
            event: self.event@,
            data: self.data@,
        }
    }
}

/// A decoder that has seen nothing.
pub open spec fn fresh() -> DecoderModel {
    DecoderModel {
        buffer: Seq::empty(),
        id: Seq::empty(),
        event: Seq::empty(),
        data: Seq::empty(),
    }
}

/// A line without the carriage return that may close it.
pub open spec fn without_return(line: Seq<u8>) -> Seq<u8> {
    if line.len() > 0 && line.last() == 13 {
        line.drop_last()
    } else {
        line
    }
}

/// What a decoder with no unfinished line makes of one whole line of text.
pub open spec fn line_read(m: DecoderModel, line: Seq<char>) -> (DecoderModel, Option<FrameModel>) {
    if line.len() == 0 {
        if m.event.len() == 0 && m.data.len() == 0 {
            (m, None)
        } else {
            (
                fresh(),
                Some(
                    FrameModel {
                        id: if m.id.len() == 0 {
                            None
                        } else {
                            Some(m.id)
                        },
                        event: if m.event.len() == 0 {
                            "message"@
                        } else {
                            m.event
                        },
                        data: m.data,
                    },
                ),
            )
        }
    } else if has_prefix(line, "event:"@) {
        (DecoderModel { event: trimmed(line.skip("event:"@.len() as int)), ..m }, None)
    } else if has_prefix(line, "id:"@) {
        (DecoderModel { id: trimmed(line.skip("id:"@.len() as int)), ..m }, None)
    } else if has_prefix(line, "data:"@) {
        let data = trimmed(line.skip("data:"@.len() as int));
        (
            DecoderModel {
                data: if m.data.len() == 0 {
                    data
                } else {
                    m.data.push('\n') + data
                },
                ..m
            },
            None,
        )
    } else {
        (m, None)
    }
}

/// What the end of the buffered line does.
pub open spec fn line_ended(m: DecoderModel) -> (DecoderModel, Option<FrameModel>) {
    let line = without_return(m.buffer);
    let rest = DecoderModel { buffer: Seq::empty(), ..m };
    if valid_utf8(line) {
        line_read(rest, decode_utf8(line))
    } else {
        (DecoderModel { event: Seq::empty(), data: Seq::empty(), ..rest }, None)
    }
}

/// What one byte does.
pub open spec fn fed(m: DecoderModel, byte: u8) -> (DecoderModel, Option<FrameModel>) {
    if byte == 10 {
        line_ended(m)
    } else {
        (DecoderModel { buffer: m.buffer.push(byte), ..m }, None)
    }
}

/// The decoder after `bytes`.
pub open spec fn after(m: DecoderModel, bytes: Seq<u8>) -> DecoderModel
    decreases bytes.len(),
{
    if bytes.len() == 0 {
        m
    } else {
        fed(after(m, bytes.drop_last()), bytes.last()).0
    }
}

/// The frames that `bytes` complete.
pub open spec fn completed(m: DecoderModel, bytes: Seq<u8>) -> Seq<FrameModel>
    decreases bytes.len(),
{
    if bytes.len() == 0 {
        Seq::empty()
    } else {
        let before = completed(m, bytes.drop_last());
        match fed(after(m, bytes.drop_last()), bytes.last()).1 {
            Some(frame) => before.push(frame),
            None => before,
        }
    }
}

impl SseDecoder {
    /// A decoder that has seen nothing.
    pub fn new() -> (r: SseDecoder)
        ensures
            r@ == fresh(),
    {
        let out = SseDecoder {
            buffer: Vec::new(),
            id: String::new(),
            event: String::new(),
            data: String::new(),
        };
        proof {
            assert(out@.buffer =~= fresh().buffer);
        }
        out
    }

    /// Takes the next chunk of the stream and returns the frames that it completes.
    pub fn push(&mut self, chunk: &[u8]) -> (r: Vec<SseFrame>)
        ensures
            final(self)@ == after(old(self)@, chunk@),
            frame_models(r@) == completed(old(self)@, chunk@),
    {
        let mut frames: Vec<SseFrame> = Vec::new();
        let mut i: usize = 0;
        proof {
            assert(chunk@.take(0) =~= Seq::<u8>::empty());
            assert(frame_models(frames@) =~= Seq::<FrameModel>::empty());
        }
        while i < chunk.len()
            invariant
                i <= chunk.len(),
                self@ == after(old(self)@, chunk@.take(i as int)),
                frame_models(frames@) == completed(old(self)@, chunk@.take(i as int)),
            decreases chunk.len() - i,
        {
            proof {
                assert(chunk@.take(i + 1).drop_last() =~= chunk@.take(i as int));
            }
            let ghost before = frames@;
            let byte: u8 = chunk[i];
            if byte == 10 {
                match self.end_line() {
                    Some(frame) => {
                        frames.push(frame);
                        proof {
                            assert(frame_models(frames@) =~= frame_models(before).push(frame@));
                        }
                    },
                    None => {},
                }
            } else {
                self.buffer.push(byte);
            }
            i = i + 1;
        }
        proof {
            assert(chunk@.take(chunk@.len() as int) =~= chunk@);
        }
        frames
    }

    /// Reads the buffered line and empties the buffer.
    fn end_line(&mut self) -> (r: Option<SseFrame>)
        ensures
            final(self)@ == line_ended(old(self)@).0,
            match r {
                Some(frame) => line_ended(old(self)@).1 == Some(frame@),
                None => line_ended(old(self)@).1 is None,
            },
    {
        let mut line: Vec<u8> = Vec::new();
        line.append(&mut self.buffer);
        let length: usize = line.len();
        proof {
            assert(line@ =~= old(self).buffer@);
        }
        if length > 0 && line[length - 1] == 13 {
            line.truncate(length - 1);
            proof {
                assert(line@ =~= old(self).buffer@.drop_last());
            }
        }
        let ghost bytes = line@;
        match utf8_text(line) {
            Some(text) => {
                proof {
                    vstd::utf8::encode_utf8_valid_utf8(text@);
                    vstd::utf8::encode_utf8_decode_utf8(text@);
                    assert(text@ == decode_utf8(bytes));
                }
                self.read_line(&text)
            },
            None => {
                self.event = String::new();
                self.data = String::new();
                None
            },
        }
    }

    /// Takes one whole line of text into the frame under construction.
    fn read_line(&mut self, line: &str) -> (r: Option<SseFrame>)
        requires
            old(self)@.buffer.len() == 0,
        ensures
            final(self)@ == line_read(old(self)@, line@).0,
            match r {
                Some(frame) => line_read(old(self)@, line@).1 == Some(frame@),
                None => line_read(old(self)@, line@).1 is None,
            },
    {
        if line.is_empty() {
            if self.event.as_str().is_empty() && self.data.as_str().is_empty() {
                return None;
            }
            let id = if self.id.as_str().is_empty() {
                None
            } else {
                Some(self.id.clone())
            };
            let event = if self.event.as_str().is_empty() {
                "message".to_owned()
            } else {
                self.event.clone()
            };
            let frame = SseFrame { id, event, data: self.data.clone() };
            self.id = String::new();
            self.event = String::new();
            self.data = String::new();
            proof {
                assert(self@.buffer =~= fresh().buffer);
                assert(self@ == line_read(old(self)@, line@).0);
            }
            return Some(frame);
        }
        if let Some(event) = strip_prefix(line, "event:") {
            self.event = trim(&event);
        } else if let Some(id) = strip_prefix(line, "id:") {
            self.id = trim(&id);
        } else if let Some(data) = strip_prefix(line, "data:") {
            if !self.data.as_str().is_empty() {
                self.data.push('\n');
            }
            let text = trim(&data);
            self.data.append(&text);
            proof {
                assert(old(self).data@.len() == 0 ==> self.data@ =~= text@);
            }
        }
        None
    }
}

impl Default for SseDecoder {
    fn default() -> (r: SseDecoder)
        ensures
            r@ == fresh(),
    {
        SseDecoder::new()
    }
}

/// How a stream is cut into chunks does not matter: two chunks in a row leave the decoder as their
/// concatenation does, and complete the same frames in the same order.
pub proof fn chunks_do_not_matter(m: DecoderModel, first: Seq<u8>, second: Seq<u8>)
    ensures
        after(m, first + second) == after(after(m, first), second),
        completed(m, first + second) == completed(m, first) + completed(after(m, first), second),
    decreases second.len(),
{
    let whole = first + second;
    if second.len() == 0 {
        assert(whole =~= first);
        assert(completed(m, first) + Seq::<FrameModel>::empty() =~= completed(m, first));
    } else {
        chunks_do_not_matter(m, first, second.drop_last());
        assert(whole.drop_last() =~= first + second.drop_last());
        let before = completed(m, first);
        let rest = completed(after(m, first), second.drop_last());
        match fed(after(after(m, first), second.drop_last()), second.last()).1 {
            Some(frame) => {
                assert((before + rest).push(frame) =~= before + rest.push(frame));
            },
            None => {},
        }
    }
}

/// A line is read when it ends: its bytes, whatever they are but for the line break, are kept until
/// then and complete nothing before.
pub proof fn lines_are_read_when_they_end(m: DecoderModel, line: Seq<u8>)
    requires
        m.buffer.len() == 0,
        forall|i: int| 0 <= i < line.len() ==> #[trigger] line[i] != 10,
    ensures
        after(m, line) == (DecoderModel { buffer: line, ..m }),
        completed(m, line).len() == 0,
        after(m, line.push(10)) == line_ended(DecoderModel { buffer: line, ..m }).0,
        completed(m, line.push(10)) == match line_ended(DecoderModel { buffer: line, ..m }).1 {
            Some(frame) => seq![frame],
            None => Seq::empty(),
        },
    decreases line.len(),
{
    if line.len() == 0 {
        assert(m.buffer =~= line);
    } else {
        let rest = line.drop_last();
        assert forall|i: int| 0 <= i < rest.len() implies #[trigger] rest[i] != 10 by {
            assert(rest[i] == line[i]);
        }
        lines_are_read_when_they_end(m, rest);
        assert(line.last() == line[line.len() - 1]);
        assert(rest.push(line.last()) =~= line);
    }
    assert(line.push(10).drop_last() =~= line);
    assert(line.push(10).last() == 10);
    assert(completed(m, line) =~= Seq::<FrameModel>::empty());
    match line_ended(DecoderModel { buffer: line, ..m }).1 {
        Some(frame) => {
            assert(completed(m, line.push(10)) =~= seq![frame]);
        },
        None => {
            assert(completed(m, line.push(10)) =~= Seq::<FrameModel>::empty());
        },
    }
}

proof fn lemma_prefixed(prefix: Seq<char>, value: Seq<char>)
    ensures
        has_prefix(prefix + value, prefix),
        (prefix + value).skip(prefix.len() as int) == value,
{
    assert((prefix + value).subrange(0, prefix.len() as int) =~= prefix);
    assert((prefix + value).skip(prefix.len() as int) =~= value);
}

/// A line that names a field sets it: the name of the event and its identity are replaced, and data
/// is added, on a line of its own if there is some already. The white space around values is
/// dropped. No such line completes a frame.
pub proof fn fields_are_taken_from_lines(m: DecoderModel, value: Seq<char>)
    ensures
        line_read(m, "event:"@ + value) == (
            DecoderModel { event: trimmed(value), ..m },
            None::<FrameModel>,
        ),
        line_read(m, "id:"@ + value) == (
            DecoderModel { id: trimmed(value), ..m },
            None::<FrameModel>,
        ),
        m.data.len() == 0 ==> line_read(m, "data:"@ + value) == (
            DecoderModel { data: trimmed(value), ..m },
            None::<FrameModel>,
        ),
        m.data.len() > 0 ==> line_read(m, "data:"@ + value) == (
            DecoderModel { data: m.data + seq!['\n'] + trimmed(value), ..m },
            None::<FrameModel>,
        ),
        line_read(m, ":"@ + value) == (m, None::<FrameModel>),
{
    reveal_strlit("event:");
    reveal_strlit("id:");
    reveal_strlit("data:");
    reveal_strlit(":");
    lemma_prefixed("event:"@, value);
    lemma_prefixed("id:"@, value);
    lemma_prefixed("data:"@, value);
    lemma_prefixed(":"@, value);
    assert(m.data.push('\n') =~= m.data + seq!['\n']);
    assert(("event:"@ + value)[0] == 'e' && ("id:"@ + value)[0] == 'i' && ("data:"@ + value)[0]
        == 'd' && (":"@ + value)[0] == ':');
    assert forall|line: Seq<char>, prefix: Seq<char>|
        line.len() > 0 && prefix.len() > 0 && #[trigger] has_prefix(line, prefix) implies line[0]
        == prefix[0] by {
        assert(line.subrange(0, prefix.len() as int)[0] == prefix[0]);
    }
}

/// An empty line completes a frame out of what was taken since the last one: its data, its event,
/// which is a message where none was named, and its identity if it has one; nothing of it is left.
/// Where nothing was taken there is no frame.
pub proof fn empty_lines_complete_frames(m: DecoderModel)
    ensures
        m.event.len() > 0 || m.data.len() > 0 ==> {
            let (next, frame) = line_read(m, Seq::empty());
            &&& frame matches Some(frame) && frame.data == m.data && (m.event.len() > 0
                ==> frame.event == m.event) && (m.event.len() == 0 ==> frame.event == "message"@)
                && (m.id.len() > 0 ==> frame.id == Some(m.id)) && (m.id.len() == 0 ==> frame.id is
                None)
            &&& next.event.len() == 0 && next.data.len() == 0 && next.id.len() == 0
                && next.buffer.len() == 0
        },
        m.event.len() == 0 && m.data.len() == 0 ==> line_read(m, Seq::empty()) == (
            m,
            None::<FrameModel>,
        ),
{
}

/// A line counts without a carriage return at its end; one that is not UTF-8 drops the event and the
/// data that were taken and completes nothing.
pub proof fn broken_lines_drop_the_frame(m: DecoderModel, text: Seq<char>)
    requires
        m.buffer.len() == 0,
    ensures
        ({
            let line = encode_utf8(text);
            let ended = line_ended(DecoderModel { buffer: line.push(13), ..m });
            ended == line_read(m, text)
        }),
        text.len() == 0 || encode_utf8(text).last() != 13 ==> line_ended(
            DecoderModel { buffer: encode_utf8(text), ..m },
        ) == line_read(m, text),
        forall|line: Seq<u8>|
            (line.len() == 0 || line.last() != 13) && !valid_utf8(line) ==> {
                let ended = #[trigger] line_ended(DecoderModel { buffer: line, ..m });
                ended.1 is None && ended.0.event.len() == 0 && ended.0.data.len() == 0
                    && ended.0.id == m.id && ended.0.buffer.len() == 0
            },
{
    let line = encode_utf8(text);
    encode_utf8_valid_utf8(text);
    encode_utf8_decode_utf8(text);
    assert(line.push(13).drop_last() =~= line);
    assert(m.buffer =~= Seq::empty());
    if text.len() == 0 {
        assert(text =~= Seq::empty());
        assert(encode_utf8(text).len() == 0);
    }
}

} // verus!
