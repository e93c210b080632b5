use megaphone::batch::BatchCursor;
use megaphone::agents::{AgentConfig, AgentsManagerService, VirtualAgentMode};
use megaphone::channel_id::ChannelShortId;
use megaphone::error::MegaphoneError;
use megaphone::pipe::{Event, Pipe, SyncEvent};
use megaphone::service::{MegaphoneService, HTTP_STREAM_NDJSON_V1};

const T0: u64 = 1_000_000;

fn service() -> MegaphoneService {
    let conf = AgentConfig { virtual_agents: vec![(String::from("alpha"), VirtualAgentMode::Master)] };
    let agents = AgentsManagerService::new(conf, 0, 60_000).unwrap();
    MegaphoneService::new(Vec::new(), agents)
}

fn event(stream: &str, idx: u64, ts: u64) -> Event {
    Event {
        stream_id: String::from(stream),
        event_id: format!("evt-{idx}"),
        timestamp: ts,
        body: format!("{{\"idx\":{idx}}}"),
    }
}

fn drain(svc: &mut MegaphoneService, consumer: &str, now: u64) -> Vec<Event> {
    let id = svc.read_channel(consumer).expect("lease");
    let mut out = Vec::new();
    while let Some(e) = svc.read_next(id) {
        out.push(e);
    }
    svc.end_read(id, now);
    out
}

#[test]
fn create_channel_gives_matching_addresses() {
    let mut svc = service();
    let (agent, consumer, producer, protocols) =
        svc.create_channel(&[String::from(HTTP_STREAM_NDJSON_V1)], T0).unwrap();
    assert_eq!(agent, "alpha");
    assert_eq!(protocols, vec![String::from(HTTP_STREAM_NDJSON_V1)]);
    let parts: Vec<&str> = consumer.split('.').collect();
    assert_eq!(parts.len(), 3);
    assert_eq!(parts[0], "alpha");
    assert_eq!(parts[1].len(), 50);
    assert_eq!(parts[2], "1");
    assert!(producer.starts_with("alpha."));
    let from_consumer = svc.parse_full_id(&consumer).unwrap();
    let from_producer = svc.parse_full_id(&producer).unwrap();
    assert_eq!(from_consumer, from_producer);
    assert_eq!(from_consumer, ChannelShortId::from_full_id(&consumer).unwrap());
    assert!(svc.channel_exists(&consumer));
    assert!(svc.channel_exists(&producer));
}

#[test]
fn create_channel_checks_protocols_and_masters() {
    let mut svc = service();
    assert!(matches!(svc.create_channel(&[String::from("carrier-pigeon")], T0), Err(MegaphoneError::BadRequest(_))));
    assert!(svc.create_channel(&[], T0).is_ok());
    let mut cold = service();
    assert!(matches!(cold.create_channel(&[], 10), Err(MegaphoneError::InternalError(_))));
}

#[test]
fn single_write_read_round_trip() {
    let mut svc = service();
    let (_, consumer, producer, _) = svc.create_channel(&[], T0).unwrap();
    assert_eq!(svc.write_into_channel(&producer, event("test", 0, T0), T0).unwrap(), true);
    let got = drain(&mut svc, &consumer, T0 + 1);
    assert_eq!(got.len(), 1);
    assert_eq!(got[0].stream_id, "test");
    assert_eq!(got[0].body, "{\"idx\":0}");
    assert_eq!(got[0].timestamp, T0);
}

#[test]
fn ordered_messages_come_out_in_order() {
    let mut svc = service();
    let (_, consumer, producer, _) = svc.create_channel(&[], T0).unwrap();
    let mut seen = Vec::new();
    for idx in 0..100u64 {
        svc.write_into_channel(&producer, event("test", idx, T0 + idx), T0 + idx).unwrap();
        if idx % 10 == 9 {
            seen.extend(drain(&mut svc, &consumer, T0 + idx).into_iter().map(|e| e.event_id));
        }
    }
    let expected: Vec<String> = (0..100).map(|i| format!("evt-{i}")).collect();
    assert_eq!(seen, expected);
}

#[test]
fn two_streams_share_a_channel() {
    let mut svc = service();
    let (_, consumer, producer, _) = svc.create_channel(&[], T0).unwrap();
    for idx in 0..100u64 {
        let stream = if idx % 2 == 0 { "even" } else { "odd" };
        svc.write_into_channel(&producer, event(stream, idx, T0), T0).unwrap();
    }
    let got = drain(&mut svc, &consumer, T0);
    let even: Vec<String> = got.iter().filter(|e| e.stream_id == "even").map(|e| e.event_id.clone()).collect();
    let odd: Vec<String> = got.iter().filter(|e| e.stream_id == "odd").map(|e| e.event_id.clone()).collect();
    assert_eq!(even, (0..100).step_by(2).map(|i| format!("evt-{i}")).collect::<Vec<_>>());
    assert_eq!(odd, (1..100).step_by(2).map(|i| format!("evt-{i}")).collect::<Vec<_>>());
}

#[test]
fn force_write_keeps_the_newest_events() {
    let mut svc = service();
    let (_, consumer, producer, _) = svc.create_channel(&[], T0).unwrap();
    let (tx, _rx) = tokio::sync::mpsc::channel::<SyncEvent>(1000);
    svc.agents.register_pipe("alpha", Pipe::new(tx), T0).unwrap();
    for idx in 0..200u64 {
        assert_eq!(svc.write_into_channel(&producer, event("test", idx, T0), T0).unwrap(), true);
    }
    assert_eq!(svc.metrics.messages_lost, 100);
    let got = drain(&mut svc, &consumer, T0);
    assert_eq!(got.len(), 100);
    let ids: Vec<String> = got.into_iter().map(|e| e.event_id).collect();
    assert_eq!(ids, (100..200).map(|i| format!("evt-{i}")).collect::<Vec<_>>());
}

#[test]
fn force_write_drops_stale_events() {
    let mut svc = service();
    let (_, consumer, producer, _) = svc.create_channel(&[], T0).unwrap();
    let (tx, _rx) = tokio::sync::mpsc::channel::<SyncEvent>(1000);
    svc.agents.register_pipe("alpha", Pipe::new(tx), T0).unwrap();
    for idx in 0..100u64 {
        let ts = if idx < 10 { T0 } else { T0 + 50_000 };
        svc.write_into_channel(&producer, event("test", idx, ts), ts).unwrap();
    }
    let now = T0 + 70_000;
    svc.write_into_channel(&producer, event("test", 100, now), now).unwrap();
    assert_eq!(svc.metrics.messages_lost, 10);
    let got = drain(&mut svc, &consumer, now);
    assert_eq!(got.len(), 91);
    assert_eq!(got[0].event_id, "evt-10");
    assert_eq!(got[90].event_id, "evt-100");
}

#[test]
fn full_channel_without_pipe_times_out_in_a_batch() {
    let mut svc = service();
    let (_, _consumer, producer, _) = svc.create_channel(&[], T0).unwrap();
    for idx in 0..100u64 {
        assert_eq!(svc.write_into_channel(&producer, event("test", idx, T0), T0).unwrap(), true);
    }
    assert_eq!(svc.write_into_channel(&producer, event("test", 100, T0), T0).unwrap(), false);
    let mut cursor = BatchCursor::new(3);
    while let Some(i) = cursor.next_to_write() {
        let outcome = match svc.write_into_channel(&producer, event("test", 101 + i as u64, T0), T0) {
            Ok(true) => Ok(()),
            Ok(false) => Err(MegaphoneError::Timeout { secs: 10 }),
            Err(e) => Err(e),
        };
        cursor.record(outcome);
    }
    assert_eq!(cursor.results.len(), 1);
    let failures = cursor.finish(&producer);
    assert_eq!(failures.len(), 3);
    assert_eq!(failures[0].reason, "TIMEOUT");
    assert_eq!(failures[0].index, 0);
    assert_eq!(failures[1].reason, "SKIPPED");
    assert_eq!(failures[2].reason, "SKIPPED");
    assert_eq!(failures[2].index, 2);
    assert_eq!(failures[1].channel, producer);
}

#[test]
fn a_batch_without_trouble_reports_nothing() {
    let mut cursor = BatchCursor::new(2);
    cursor.record(Ok(()));
    cursor.record(Err(MegaphoneError::NotFound));
    assert!(cursor.next_to_write().is_none());
    let failures = cursor.finish("ch");
    assert_eq!(failures.len(), 1);
    assert_eq!(failures[0].index, 1);
    assert_eq!(failures[0].reason, "NOT_FOUND");
}

#[test]
fn unknown_channels_are_not_found() {
    let mut svc = service();
    let missing = format!("alpha.{}.1", "a".repeat(50));
    assert!(matches!(svc.write_into_channel(&missing, event("t", 0, T0), T0), Err(MegaphoneError::NotFound)));
    assert!(matches!(svc.write_into_channel("nodot", event("t", 0, T0), T0), Err(MegaphoneError::BadRequest(_))));
    assert_eq!(svc.metrics.messages_unroutable, 1);
    assert!(matches!(svc.read_channel(&missing), Err(MegaphoneError::NotFound)));
    assert!(!svc.channel_exists(&missing));
    assert!(matches!(svc.drop_channel(&missing, T0), Err(MegaphoneError::InternalError(_))));
    assert!(matches!(svc.drop_channel("nodot", T0), Err(MegaphoneError::BadRequest(_))));
}

#[test]
fn a_second_reader_is_busy() {
    let mut svc = service();
    let (_, consumer, producer, _) = svc.create_channel(&[], T0).unwrap();
    let id = svc.read_channel(&consumer).unwrap();
    assert!(matches!(svc.read_channel(&consumer), Err(MegaphoneError::Busy)));
    assert!(matches!(svc.read_channel(&producer), Err(MegaphoneError::NotFound)));
    svc.end_read(id, T0);
    assert!(svc.read_channel(&consumer).is_ok());
}

#[test]
fn sweeper_spares_distributed_agents() {
    let conf = AgentConfig {
        virtual_agents: vec![
            (String::from("alpha"), VirtualAgentMode::Master),
            (String::from("beta"), VirtualAgentMode::Master),
        ],
    };
    let mut svc = MegaphoneService::new(Vec::new(), AgentsManagerService::new(conf, 0, 60_000).unwrap());
    let mut by_agent = std::collections::HashMap::new();
    while by_agent.len() < 2 {
        let (agent, consumer, _, _) = svc.create_channel(&[], T0).unwrap();
        by_agent.entry(agent).or_insert(consumer);
    }
    let (tx, _rx) = tokio::sync::mpsc::channel::<SyncEvent>(10);
    svc.agents.register_pipe("beta", Pipe::new(tx), T0).unwrap();
    let total = svc.channels.len();
    let alpha_count = svc.count_by_agent("alpha");
    let removed = svc.drop_expired(T0 + 65_000);
    assert_eq!(removed.len(), alpha_count);
    assert!(removed.contains(&by_agent["alpha"]));
    assert!(svc.channel_exists(&by_agent["beta"]));
    assert!(!svc.channel_exists(&by_agent["alpha"]));
    assert_eq!(svc.channels.len(), total - alpha_count);
    assert_eq!(svc.drop_expired(T0 + 30_000).len(), 0);
}

#[test]
fn recently_read_channels_survive_the_sweeper() {
    let mut svc = service();
    let (_, consumer, _, _) = svc.create_channel(&[], T0).unwrap();
    drain(&mut svc, &consumer, T0 + 50_000);
    assert_eq!(svc.drop_expired(T0 + 100_000).len(), 0);
    assert_eq!(svc.drop_expired(T0 + 110_001).len(), 1);
}

#[test]
fn listing_and_counting_channels() {
    let mut svc = service();
    let mut made = Vec::new();
    for _ in 0..5 {
        made.push(svc.create_channel(&[], T0).unwrap().1);
    }
    assert_eq!(svc.count_by_agent("alpha"), 5);
    assert_eq!(svc.count_by_agent("alph"), 0);
    assert_eq!(svc.channel_ids_by_agent("alpha"), made);
    assert_eq!(svc.list_channels(1, 2), made[1..3].to_vec());
    assert_eq!(svc.list_channels(4, 10), made[4..].to_vec());
    assert!(svc.list_channels(5, 10).is_empty());
    svc.drop_channel(&made[0], T0).unwrap();
    assert_eq!(svc.count_by_agent("alpha"), 4);
}

#[test]
fn injected_events_and_announced_channels() {
    let mut svc = service();
    let id = format!("alpha.{}.1", "b".repeat(50));
    svc.create_channel_with_id(&id, T0).unwrap();
    assert!(svc.channel_exists(&id));
    for idx in 0..150u64 {
        svc.inject_into_channel(&id, event("s", idx, T0), T0).unwrap();
    }
    let got = drain(&mut svc, &id, T0);
    assert_eq!(got.len(), 100);
    assert_eq!(got[99].event_id, "evt-149");
    assert!(matches!(svc.create_channel_with_id("nodot", T0), Err(MegaphoneError::BadRequest(_))));
}

#[test]
fn short_ids_are_md5_of_the_segment() {
    assert_eq!(ChannelShortId::from_id_segment("abc").0, 0x900150983cd24fb0d6963f7d28e17f72);
    assert_eq!(ChannelShortId::from_full_id("agent.abc.1").unwrap().0, 0x900150983cd24fb0d6963f7d28e17f72);
    assert!(ChannelShortId::from_full_id("no-dots").is_err());
}

#[test]
fn a_segment_in_use_is_refused() {
    let mut svc = service();
    let seg = "c".repeat(50);
    let nonce = [3u8; 12];
    let (agent, consumer, producer, _) = svc.create_channel_with_segment("alpha", &seg, &nonce, T0).unwrap();
    assert_eq!(agent, "alpha");
    assert_eq!(consumer, format!("alpha.{seg}.1"));
    assert_eq!(svc.parse_full_id(&producer).unwrap(), ChannelShortId::from_id_segment(&seg));
    assert!(matches!(svc.create_channel_with_segment("alpha", &seg, &nonce, T0), Err(MegaphoneError::InternalError(_))));
}

#[test]
fn injecting_into_a_missing_channel_is_unroutable() {
    let mut svc = service();
    let missing = format!("alpha.{}.1", "d".repeat(50));
    assert!(matches!(svc.inject_into_channel(&missing, event("s", 0, T0), T0), Err(MegaphoneError::NotFound)));
    assert_eq!(svc.metrics.messages_unroutable, 1);
}
