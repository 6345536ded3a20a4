use adaptive_transport::client::{enqueue_demo_batch, parse_command, parse_ms, ClientCommand};
use adaptive_transport::packet::{decode_packet, Reliability};
use adaptive_transport::scheduler::PriorityScheduler;

#[test]
fn commands_are_recognised() {
    assert!(matches!(parse_command("   "), ClientCommand::Empty));
    assert!(matches!(parse_command("EXIT"), ClientCommand::Quit));
    assert!(matches!(parse_command("  connect  "), ClientCommand::Connect));
    match parse_command("mkstream important 6") {
        ClientCommand::MakeStream { reliability, priority } => {
            assert_eq!(reliability, Reliability::Important);
            assert_eq!(priority, 6);
        }
        _ => panic!("mkstream"),
    }
    match parse_command("mkstream bogus 300") {
        ClientCommand::MakeStream { reliability, priority } => {
            assert_eq!(reliability, Reliability::Guaranteed);
            assert_eq!(priority, 0);
        }
        _ => panic!("mkstream"),
    }
    assert!(matches!(parse_command("use 3"), ClientCommand::Use(3)));
    assert!(matches!(parse_command("use"), ClientCommand::Use(0)));
    match parse_command("send  hello   world ") {
        ClientCommand::Send(m) => assert_eq!(m, "hello   world"),
        _ => panic!("send"),
    }
    assert!(matches!(parse_command("delay 250"), ClientCommand::Delay(250)));
    assert!(matches!(parse_command("jitter 99999"), ClientCommand::Jitter(10_000)));
    assert!(matches!(parse_command("experiment"), ClientCommand::Experiment(5)));
    assert!(matches!(parse_command("exp 1000"), ClientCommand::Experiment(100)));
    assert!(matches!(parse_command("exp 0"), ClientCommand::Experiment(1)));
    match parse_command("Scenario LOSSY") {
        ClientCommand::Scenario(n) => assert_eq!(n, "lossy"),
        _ => panic!("scenario"),
    }
    match parse_command("loss") {
        ClientCommand::Loss(a) => assert_eq!(a, "0"),
        _ => panic!("loss"),
    }
}

#[test]
fn data_lines_are_read() {
    match parse_command("guaranteed 7 hello  there") {
        ClientCommand::Data { reliability_word, reliability, priority, message } => {
            assert_eq!(reliability_word, "guaranteed");
            assert_eq!(reliability, Some(Reliability::Guaranteed));
            assert_eq!(priority, 7);
            assert_eq!(message, "hello there");
        }
        _ => panic!("data"),
    }
    match parse_command("loud x msg") {
        ClientCommand::Data { reliability, priority, .. } => {
            assert_eq!(reliability, None);
            assert_eq!(priority, 0);
        }
        _ => panic!("data"),
    }
    assert!(matches!(parse_command("be 1"), ClientCommand::Incomplete));
}

#[test]
fn ms_arguments() {
    assert_eq!(parse_ms("120"), 120);
    assert_eq!(parse_ms("x"), 0);
    assert_eq!(parse_ms(" 5"), 0);
    assert_eq!(parse_ms("20000"), 10_000);
}

#[test]
fn demo_batch_is_queued_in_order() {
    let mut scheduler = PriorityScheduler::new();
    let mut seq: u32 = u32::MAX - 1;
    enqueue_demo_batch(&mut scheduler, &mut seq, 77, 4);
    assert_eq!(seq, 3);
    assert_eq!(scheduler.len(), 5);
    let first = scheduler.pop_next().unwrap();
    assert_eq!(first.priority, 7);
    assert_eq!(first.seq, 2);
    assert_eq!(first.payload_preview, "demo critical control");
    let p = decode_packet(&first.encoded).unwrap();
    assert_eq!((p.connection_id, p.stream_id, p.seq), (77, 4, 2));
    assert_eq!(p.payload, b"demo critical control".to_vec());
    let order: Vec<u32> = (0..4).map(|_| scheduler.pop_next().unwrap().seq).collect();
    assert_eq!(order, vec![0, 1, u32::MAX, u32::MAX - 1]);
}
