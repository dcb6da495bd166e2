use light_robot_core::web::{chunk_count, content_type, publish_tick, text_frame_payload_len, ContentType, Publication, Revisions};

#[test]
fn served_files_get_content_types_by_extension() {
    assert_eq!(content_type("pkg/app.js"), ContentType::JavaScript);
    assert_eq!(content_type("pkg/app_bg.wasm"), ContentType::Wasm);
    assert_eq!(content_type("index.html"), ContentType::Html);
    assert_eq!(content_type("old.htm"), ContentType::Html);
    assert_eq!(content_type("style.css"), ContentType::Css);
    assert_eq!(content_type(""), ContentType::Html);
    assert_eq!(content_type("js"), ContentType::Html);
    assert_eq!(ContentType::JavaScript.header_value(), "application/javascript");
    assert_eq!(ContentType::Wasm.header_value(), "application/wasm");
    assert_eq!(ContentType::Html.header_value(), "text/html");
    assert_eq!(ContentType::Css.header_value(), "text/css");
}

#[test]
fn websocket_text_length_drops_terminator() {
    assert_eq!(text_frame_payload_len(0), 0);
    assert_eq!(text_frame_payload_len(1), 0);
    assert_eq!(text_frame_payload_len(42), 41);
}

#[test]
fn results_are_sent_in_chunks_of_four() {
    assert_eq!(chunk_count(0), 0);
    assert_eq!(chunk_count(4), 1);
    assert_eq!(chunk_count(5), 2);
    assert_eq!(chunk_count(9), 3);
}

#[test]
fn publisher_stays_quiet_during_a_servo_test() {
    let current = Revisions { servo_test: 3, inertia_capture: 1, hil_simulation: 2 };
    let sent = Revisions { servo_test: 2, inertia_capture: 1, hil_simulation: 0 };
    let (publication, after) = publish_tick(true, current, sent);
    assert_eq!(publication, Publication { servo_test: false, inertia_capture: false, hil_simulation: false, state: false });
    assert_eq!(after, sent);
}

#[test]
fn publisher_sends_changed_results_then_state() {
    let current = Revisions { servo_test: 3, inertia_capture: 1, hil_simulation: 2 };
    let sent = Revisions { servo_test: 2, inertia_capture: 1, hil_simulation: 0 };
    let (publication, after) = publish_tick(false, current, sent);
    assert_eq!(publication, Publication { servo_test: true, inertia_capture: false, hil_simulation: true, state: true });
    assert_eq!(after, current);
    let (again, _) = publish_tick(false, current, after);
    assert_eq!(again, Publication { servo_test: false, inertia_capture: false, hil_simulation: false, state: true });
}
