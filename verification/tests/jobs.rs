use haven_core::image_generator::jobs::{
    advance_gradio_job, advance_horde_job, asks_alternative, collect_horde_images,
    extract_gradio_event_id, gradio_alternative_url, gradio_authorization, gradio_status_url,
    horde_check_url, horde_status_url, images_of_alternative, images_of_line, is_gradio_provider,
    poll_of_reply, read_gradio_alternative, read_gradio_poll, GradioJob, GradioPoll, HordeCheck,
    HordeGeneration, HordeJob, HordeStatus, GRADIO_MAX_POLLS, HORDE_MAX_POLLS,
};
use haven_core::json::parse;

fn check(done: bool, faulted: bool, message: Option<&str>) -> HordeCheck {
    HordeCheck { done, faulted, message: message.map(str::to_string) }
}

fn generation(img: Option<&str>, censored: bool) -> HordeGeneration {
    HordeGeneration { img: img.map(str::to_string), censored }
}

fn completed(poll: GradioPoll) -> Vec<(Option<String>, Option<String>)> {
    match poll {
        GradioPoll::Completed(images) => {
            images.into_iter().map(|d| (d.url, d.b64_json)).collect()
        }
        other => panic!("{:?}", other),
    }
}

#[test]
fn job_addresses() {
    assert_eq!(horde_check_url("https://h/", "7"), "https://h/v2/generate/check/7");
    assert_eq!(horde_status_url("https://h", "7"), "https://h/v2/generate/status/7");
    assert_eq!(gradio_status_url("https://g/", "/draw/", "e"), "https://g/gradio_api/call/draw/e");
    assert_eq!(gradio_status_url("https://g", " ", "e"), "https://g/gradio_api/call/predict/e");
    assert_eq!(gradio_alternative_url("https://g/", "e"), "https://g/queue/status/e");
    assert_eq!(gradio_authorization(" k "), Some("Bearer k".to_string()));
    assert_eq!(gradio_authorization(" "), None);
    assert_eq!(extract_gradio_event_id("gradio:// e "), Some("e".to_string()));
    assert_eq!(extract_gradio_event_id("gradio://"), None);
    assert!(is_gradio_provider("HuggingFace"));
    assert!(!is_gradio_provider("generic"));
}

#[test]
fn a_horde_job_goes_on_until_it_ends() {
    assert!(matches!(advance_horde_job(0, check(false, false, None)), HordeJob::Checking(1)));
    assert!(matches!(advance_horde_job(5, check(true, false, None)), HordeJob::Completed));
    match advance_horde_job(5, check(true, true, Some("boom"))) {
        HordeJob::Failed(e) => assert_eq!(e, "boom"),
        other => panic!("{:?}", other),
    }
    match advance_horde_job(5, check(false, true, None)) {
        HordeJob::Failed(e) => assert_eq!(e, "AI Horde generation failed."),
        other => panic!("{:?}", other),
    }
    let mut poll = 0;
    let mut checks = 0;
    let end = loop {
        checks += 1;
        match advance_horde_job(poll, check(false, false, None)) {
            HordeJob::Checking(n) => poll = n,
            HordeJob::Failed(e) => break e,
            HordeJob::Completed => panic!("not done"),
        }
    };
    assert_eq!(checks, HORDE_MAX_POLLS);
    assert_eq!(end, "AI Horde generation timed out after 10 minutes.");
}

#[test]
fn censored_and_missing_images_are_left_out() {
    let status = HordeStatus {
        faulted: false,
        message: None,
        generations: vec![
            generation(Some("https://a"), false),
            generation(Some("https://b"), true),
            generation(None, false),
            generation(Some(" "), false),
        ],
    };
    let images = collect_horde_images(status).unwrap();
    assert_eq!(images.len(), 1);
    assert_eq!(images[0].url.as_deref(), Some("https://a"));
    let none = HordeStatus { faulted: false, message: None, generations: vec![] };
    assert_eq!(
        collect_horde_images(none).unwrap_err(),
        "AI Horde completed the generation but returned no images."
    );
    let bad = HordeStatus { faulted: true, message: Some("x".to_string()), generations: vec![] };
    assert_eq!(collect_horde_images(bad).unwrap_err(), "x");
}

#[test]
fn polls_in_json() {
    let found = completed(read_gradio_poll(
        r#"{"data":["https://a/b.png",{"url":"http://c"},{"data":"AAAAAAAAAAAAAAAAAAAAAAAA"},"short",5]}"#,
    ));
    assert_eq!(found.len(), 3);
    assert_eq!(found[0].0.as_deref(), Some("https://a/b.png"));
    assert_eq!(found[1].0.as_deref(), Some("http://c"));
    assert_eq!(found[2].1.as_deref(), Some("AAAAAAAAAAAAAAAAAAAAAAAA"));
    let text = completed(read_gradio_poll(r#"{"data":" https://x "}"#));
    assert_eq!(text[0].0.as_deref(), Some("https://x"));
    let body = r#"{"status":"Process FAILED"}"#;
    match read_gradio_poll(body) {
        GradioPoll::Failed(e) => {
            assert_eq!(e, format!("Gradio generation failed (status: process failed): {}", body))
        }
        other => panic!("{:?}", other),
    }
    assert!(matches!(read_gradio_poll(r#"{"status":"pending"}"#), GradioPoll::Pending));
}

#[test]
fn polls_in_event_streams() {
    let body = "event: complete\ndata: [DONE]\ndata: [\"https://a\", \"AAAA\"]\n";
    let found = completed(read_gradio_poll(body));
    assert_eq!(found[0].0.as_deref(), Some("https://a"));
    assert_eq!(found[1].1.as_deref(), Some("AAAA"));
    assert!(matches!(read_gradio_poll("event: generating\ndata: null\n"), GradioPoll::Pending));
    assert_eq!(images_of_line(parse("\"AAAA\"")).len(), 1);
    assert!(images_of_line(Err("no".to_string())).is_empty());
    assert!(matches!(
        poll_of_reply(Err("no".to_string()), "event: heartbeat"),
        GradioPoll::Pending
    ));
}

#[test]
fn the_older_address_is_read() {
    let images = read_gradio_alternative(r#"{"data":["http://a", 3, "BBBB"]}"#);
    assert_eq!(images.len(), 2);
    assert_eq!(images[0].url.as_deref(), Some("http://a"));
    assert!(read_gradio_alternative("nonsense").is_empty());
    assert!(images_of_alternative(Err("no".to_string())).is_empty());
    assert!(!asks_alternative(0));
    assert!(asks_alternative(10));
    assert!(!asks_alternative(11));
}

#[test]
fn a_gradio_event_goes_on_until_it_ends() {
    assert!(matches!(
        advance_gradio_job(3, GradioPoll::Pending, vec![]),
        GradioJob::Polling(4)
    ));
    match advance_gradio_job(3, GradioPoll::Failed("x".to_string()), vec![]) {
        GradioJob::Failed(e) => assert_eq!(e, "x"),
        other => panic!("{:?}", other),
    }
    let older = read_gradio_alternative(r#"{"data":["http://a"]}"#);
    assert!(matches!(
        advance_gradio_job(10, GradioPoll::Pending, older),
        GradioJob::Completed(_)
    ));
    match advance_gradio_job(GRADIO_MAX_POLLS - 1, GradioPoll::Pending, vec![]) {
        GradioJob::Failed(e) => {
            assert_eq!(e, "Gradio generation timed out waiting for result (120s)")
        }
        other => panic!("{:?}", other),
    }
}
