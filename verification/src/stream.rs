//! The streaming place-list body: an incremental encoder that frames a
//! stream of already-serialized stations as one JSON object.
//!
//! The body opens a `places` array, emits the stations as they arrive
//! with commas between them, closes the array when the stream ends, and
//! appends a `problems` array collecting every item the stream failed to
//! deliver; then it is complete. Each call hands the encoder one stream
//! event and yields at most one frame. Problem texts are escaped for
//! quotes and backslashes, the characters the collected messages can
//! carry.

use vstd::prelude::*;

use crate::osdm::OsdmProblem;

verus! {

/// Where the encoder stands.
#[derive(PartialEq, Eq, Structural, Clone, Copy, Debug)]
pub enum JsonStreamBodyState {
    /// Nothing sent yet.
    Initial,
    /// Streaming the places array.
    Stations,
    /// The array is closed; the problems report is owed.
    Problems,
    /// Everything sent.
    End,
}

/// One observation of the underlying station stream.
pub enum StreamEvent {
    /// A station arrived, already serialized.
    Item(Vec<u8>),
    /// The stream failed to deliver an item, with its message.
    Failed(Vec<u8>),
    /// The stream is exhausted.
    Finished,
    /// Nothing available yet.
    NotReady,
}

/// What one step of the encoder yields.
pub enum FrameStep {
    /// One frame of the body.
    Data(Vec<u8>),
    /// No frame yet; ask again.
    Pending,
    /// The body is complete.
    Complete,
}

/// The opening frame: `{ "places": [`.
pub open spec fn open_places_text() -> Seq<u8> {
    seq![
        123u8, 32u8, 34u8, 112u8, 108u8, 97u8, 99u8, 101u8, 115u8, 34u8, 58u8, 32u8, 91u8,
    ]
}

/// The code carried by every collected problem.
pub open spec fn station_error_code() -> Seq<u8> {
    seq![
        115u8, 116u8, 97u8, 116u8, 105u8, 111u8, 110u8, 95u8, 101u8, 114u8, 114u8, 111u8,
        114u8,
    ]
}

/// The first `i` bytes of `s`, escaped: quotes and backslashes get a
/// leading backslash.
pub open spec fn spec_escape_upto(s: Seq<u8>, i: int) -> Seq<u8>
    decreases i,
{
    if i <= 0 {
        Seq::empty()
    } else {
        spec_escape_upto(s, i - 1) + (if s[i - 1] == 34 || s[i - 1] == 92 {
            seq![92u8, s[i - 1]]
        } else {
            seq![s[i - 1]]
        })
    }
}

/// A byte string escaped for embedding in a JSON string literal.
pub open spec fn spec_json_escape(s: Seq<u8>) -> Seq<u8> {
    spec_escape_upto(s, s.len() as int)
}

/// One problem as a JSON object: `{"code":"..","title":".."}`.
pub open spec fn spec_problem_json(p: OsdmProblem) -> Seq<u8> {
    seq![123u8, 34u8, 99u8, 111u8, 100u8, 101u8, 34u8, 58u8, 34u8] + spec_json_escape(p.code@)
        + seq![34u8, 44u8, 34u8, 116u8, 105u8, 116u8, 108u8, 101u8, 34u8, 58u8, 34u8]
        + spec_json_escape(p.title@) + seq![34u8, 125u8]
}

/// The opening bracket and first `i` problems of the JSON array, with
/// commas between them.
pub open spec fn spec_array_upto(ps: Seq<OsdmProblem>, i: int) -> Seq<u8>
    decreases i,
{
    if i <= 0 {
        seq![91u8]
    } else {
        spec_array_upto(ps, i - 1) + (if i - 1 > 0 {
            seq![44u8]
        } else {
            Seq::empty()
        }) + spec_problem_json(ps[i - 1])
    }
}

/// The closing frame: `, "problems": [..] }`.
pub open spec fn spec_problems_frame(ps: Seq<OsdmProblem>) -> Seq<u8> {
    seq![44u8, 32u8, 34u8, 112u8, 114u8, 111u8, 98u8, 108u8, 101u8, 109u8, 115u8, 34u8, 58u8, 32u8]
        + spec_array_upto(ps, ps.len() as int) + seq![93u8, 32u8, 125u8]
}

/// Escapes a byte string for embedding in a JSON string literal.
fn escape_json(v: &Vec<u8>) -> (r: Vec<u8>)
    ensures
        r@ == spec_json_escape(v@),
{
    let mut r: Vec<u8> = Vec::new();
    let mut i: usize = 0;
    while i < v.len()
        invariant
            i <= v@.len(),
            r@ == spec_escape_upto(v@, i as int),
        decreases v@.len() - i,
    {
        let b = v[i];
        if b == 34 || b == 92 {
            r.push(92);
            r.push(b);
            assert(r@ =~= spec_escape_upto(v@, i + 1 as int));
        } else {
            r.push(b);
            assert(r@ =~= spec_escape_upto(v@, i + 1 as int));
        }
        i = i + 1;
    }
    r
}

/// Appends every byte of `src` to `dst`.
fn append_bytes(dst: &mut Vec<u8>, src: &Vec<u8>)
    ensures
        final(dst)@ == old(dst)@ + src@,
{
    let mut i: usize = 0;
    while i < src.len()
        invariant
            i <= src@.len(),
            dst@ == old(dst)@ + src@.take(i as int),
        decreases src@.len() - i,
    {
        dst.push(src[i]);
        assert(dst@ =~= old(dst)@ + src@.take(i + 1 as int));
        i = i + 1;
    }
    assert(old(dst)@ + src@.take(src@.len() as int) =~= old(dst)@ + src@);
}

/// One problem encoded as a JSON object.
fn problem_json(p: &OsdmProblem) -> (r: Vec<u8>)
    ensures
        r@ == spec_problem_json(*p),
{
    let mut r: Vec<u8> = Vec::new();
    // {"code":"
    r.push(123);
    r.push(34);
    r.push(99);
    r.push(111);
    r.push(100);
    r.push(101);
    r.push(34);
    r.push(58);
    r.push(34);
    let code = escape_json(&p.code);
    append_bytes(&mut r, &code);
    // ","title":"
    r.push(34);
    r.push(44);
    r.push(34);
    r.push(116);
    r.push(105);
    r.push(116);
    r.push(108);
    r.push(101);
    r.push(34);
    r.push(58);
    r.push(34);
    let title = escape_json(&p.title);
    append_bytes(&mut r, &title);
    // "}
    r.push(34);
    r.push(125);
    assert(r@ =~= spec_problem_json(*p));
    r
}

/// The incremental body encoder.
pub struct JsonStreamBody {
    /// Where the encoder stands.
    pub current_state: JsonStreamBodyState,
    /// The problems collected while streaming.
    pub problems: Vec<OsdmProblem>,
    /// A first place has been sent, so the next one needs a comma.
    pub has_sent_first: bool,
}

impl JsonStreamBody {
    /// A fresh encoder: nothing sent, no problems collected.
    pub fn new() -> (r: JsonStreamBody)
        ensures
            r.current_state is Initial,
            r.problems@.len() == 0,
            !r.has_sent_first,
    {
        JsonStreamBody {
            current_state: JsonStreamBodyState::Initial,
            problems: Vec::new(),
            has_sent_first: false,
        }
    }

    /// Advances the encoder by one stream event and yields at most one
    /// frame: the opening text first; then each arriving place,
    /// comma-separated; a failed item is collected, not sent; the closing
    /// bracket when the stream ends; the problems report; then the body
    /// is complete.
    pub fn next_frame(&mut self, event: StreamEvent) -> (r: FrameStep)
        ensures
            match old(self).current_state {
                JsonStreamBodyState::Initial => {
                    &&& final(self).current_state is Stations
                    &&& final(self).problems@ == old(self).problems@
                    &&& final(self).has_sent_first == old(self).has_sent_first
                    &&& r matches FrameStep::Data(d) && d@ == open_places_text()
                },
                JsonStreamBodyState::Stations => match event {
                    StreamEvent::Item(json) => {
                        &&& final(self).current_state is Stations
                        &&& final(self).problems@ == old(self).problems@
                        &&& final(self).has_sent_first
                        &&& r matches FrameStep::Data(d) && d@ == (if old(self).has_sent_first {
                            seq![44u8, 32u8] + json@
                        } else {
                            json@
                        })
                    },
                    StreamEvent::Failed(msg) => {
                        &&& final(self).current_state is Stations
                        &&& final(self).has_sent_first == old(self).has_sent_first
                        &&& final(self).problems@.len() == old(self).problems@.len() + 1
                        &&& (forall|k: int|
                            0 <= k < old(self).problems@.len()
                                ==> #[trigger] final(self).problems@[k] == old(
                                self,
                            ).problems@[k])
                        &&& final(self).problems@.last().code@ == station_error_code()
                        &&& final(self).problems@.last().title@ == msg@
                        &&& r is Pending
                    },
                    StreamEvent::Finished => {
                        &&& final(self).current_state is Problems
                        &&& final(self).problems@ == old(self).problems@
                        &&& final(self).has_sent_first == old(self).has_sent_first
                        &&& r matches FrameStep::Data(d) && d@ == seq![93u8]
                    },
                    StreamEvent::NotReady => {
                        &&& *final(self) == *old(self)
                        &&& r is Pending
                    },
                },
                JsonStreamBodyState::Problems => {
                    &&& final(self).current_state is End
                    &&& final(self).problems@ == old(self).problems@
                    &&& final(self).has_sent_first == old(self).has_sent_first
                    &&& r matches FrameStep::Data(d) && d@ == spec_problems_frame(
                        old(self).problems@,
                    )
                },
                JsonStreamBodyState::End => {
                    &&& *final(self) == *old(self)
                    &&& r is Complete
                },
            },
    {
        match self.current_state {
            JsonStreamBodyState::Initial => {
                self.current_state = JsonStreamBodyState::Stations;
                let mut d: Vec<u8> = Vec::new();
                // { "places": [
                d.push(123);
                d.push(32);
                d.push(34);
                d.push(112);
                d.push(108);
                d.push(97);
                d.push(99);
                d.push(101);
                d.push(115);
                d.push(34);
                d.push(58);
                d.push(32);
                d.push(91);
                assert(d@ =~= open_places_text());
                FrameStep::Data(d)
            },
            JsonStreamBodyState::Stations => match event {
                StreamEvent::Item(json) => {
                    let mut d: Vec<u8> = Vec::new();
                    if self.has_sent_first {
                        d.push(44);
                        d.push(32);
                    }
                    append_bytes(&mut d, &json);
                    proof {
                        if self.has_sent_first {
                            assert(d@ =~= seq![44u8, 32u8] + json@);
                        } else {
                            assert(d@ =~= json@);
                        }
                    }
                    self.has_sent_first = true;
                    FrameStep::Data(d)
                },
                StreamEvent::Failed(msg) => {
                    let mut code: Vec<u8> = Vec::new();
                    // station_error
                    code.push(115);
                    code.push(116);
                    code.push(97);
                    code.push(116);
                    code.push(105);
                    code.push(111);
                    code.push(110);
                    code.push(95);
                    code.push(101);
                    code.push(114);
                    code.push(114);
                    code.push(111);
                    code.push(114);
                    assert(code@ =~= station_error_code());
                    self.problems.push(OsdmProblem { code, title: msg });
                    FrameStep::Pending
                },
                StreamEvent::Finished => {
                    self.current_state = JsonStreamBodyState::Problems;
                    let mut d: Vec<u8> = Vec::new();
                    d.push(93);
                    assert(d@ =~= seq![93u8]);
                    FrameStep::Data(d)
                },
                StreamEvent::NotReady => FrameStep::Pending,
            },
            JsonStreamBodyState::Problems => {
                self.current_state = JsonStreamBodyState::End;
                let mut d: Vec<u8> = Vec::new();
                // , "problems":
                d.push(44);
                d.push(32);
                d.push(34);
                d.push(112);
                d.push(114);
                d.push(111);
                d.push(98);
                d.push(108);
                d.push(101);
                d.push(109);
                d.push(115);
                d.push(34);
                d.push(58);
                d.push(32);
                let ghost head = d@;
                proof {
                    assert(head =~= seq![
                        44u8, 32u8, 34u8, 112u8, 114u8, 111u8, 98u8, 108u8, 101u8, 109u8,
                        115u8, 34u8, 58u8, 32u8,
                    ]);
                }
                d.push(91);
                let ghost ps = self.problems@;
                proof {
                    assert(d@ =~= head + spec_array_upto(ps, 0));
                }
                let mut j: usize = 0;
                while j < self.problems.len()
                    invariant
                        j <= self.problems@.len(),
                        ps == self.problems@,
                        d@ == head + spec_array_upto(ps, j as int),
                    decreases self.problems@.len() - j,
                {
                    if j > 0 {
                        d.push(44);
                    }
                    let pj = problem_json(&self.problems[j]);
                    append_bytes(&mut d, &pj);
                    proof {
                        if j > 0 {
                            assert(d@ =~= head + (spec_array_upto(ps, j as int) + seq![44u8]
                                + spec_problem_json(ps[j as int])));
                        } else {
                            assert(d@ =~= head + (spec_array_upto(ps, j as int)
                                + Seq::<u8>::empty() + spec_problem_json(ps[j as int])));
                        }
                        assert(d@ =~= head + spec_array_upto(ps, j + 1 as int));
                    }
                    j = j + 1;
                }
                d.push(93);
                d.push(32);
                d.push(125);
                assert(d@ =~= spec_problems_frame(ps));
                FrameStep::Data(d)
            },
            JsonStreamBodyState::End => FrameStep::Complete,
        }
    }
}

} // verus!
