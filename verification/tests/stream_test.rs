use restations::stream::{FrameStep, JsonStreamBody, StreamEvent};

fn bytes(s: &str) -> Vec<u8> {
    s.as_bytes().to_vec()
}

fn data(step: FrameStep) -> Vec<u8> {
    match step {
        FrameStep::Data(d) => d,
        FrameStep::Pending => panic!("expected a frame, found pending"),
        FrameStep::Complete => panic!("expected a frame, found completion"),
    }
}

#[test]
fn the_body_frames_a_clean_stream() {
    let mut body = JsonStreamBody::new();
    let mut out: Vec<u8> = Vec::new();
    out.extend(data(body.next_frame(StreamEvent::NotReady)));
    out.extend(data(body.next_frame(StreamEvent::Item(bytes("{\"id\":1}")))));
    out.extend(data(body.next_frame(StreamEvent::Item(bytes("{\"id\":2}")))));
    out.extend(data(body.next_frame(StreamEvent::Finished)));
    out.extend(data(body.next_frame(StreamEvent::NotReady)));
    assert!(matches!(body.next_frame(StreamEvent::NotReady), FrameStep::Complete));
    assert_eq!(
        String::from_utf8(out).unwrap(),
        "{ \"places\": [{\"id\":1}, {\"id\":2}], \"problems\": [] }"
    );
}

#[test]
fn failed_items_become_problems_not_frames() {
    let mut body = JsonStreamBody::new();
    let mut out: Vec<u8> = Vec::new();
    out.extend(data(body.next_frame(StreamEvent::NotReady)));
    out.extend(data(body.next_frame(StreamEvent::Item(bytes("{\"id\":1}")))));
    assert!(matches!(
        body.next_frame(StreamEvent::Failed(bytes("row 7 unreadable"))),
        FrameStep::Pending
    ));
    assert!(matches!(body.next_frame(StreamEvent::NotReady), FrameStep::Pending));
    out.extend(data(body.next_frame(StreamEvent::Finished)));
    out.extend(data(body.next_frame(StreamEvent::NotReady)));
    assert_eq!(
        String::from_utf8(out).unwrap(),
        "{ \"places\": [{\"id\":1}], \"problems\": \
         [{\"code\":\"station_error\",\"title\":\"row 7 unreadable\"}] }"
    );
}

#[test]
fn problem_titles_are_escaped() {
    let mut body = JsonStreamBody::new();
    let _ = data(body.next_frame(StreamEvent::NotReady));
    let _ = body.next_frame(StreamEvent::Failed(bytes("he said \"no\" \\ twice")));
    let _ = body.next_frame(StreamEvent::Failed(bytes("second")));
    let _ = data(body.next_frame(StreamEvent::Finished));
    let tail = data(body.next_frame(StreamEvent::NotReady));
    assert_eq!(
        String::from_utf8(tail).unwrap(),
        ", \"problems\": [{\"code\":\"station_error\",\"title\":\"he said \\\"no\\\" \\\\ twice\"}\
         ,{\"code\":\"station_error\",\"title\":\"second\"}] }"
    );
}
