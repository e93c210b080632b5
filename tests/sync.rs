use megaphone::agents::{AgentConfig, AgentsManagerService};
use megaphone::pipe::{Event, SyncEvent};
use megaphone::service::MegaphoneService;
use megaphone::sync::SyncSession;

#[test]
fn a_peer_session_opens_and_closes_replicas() {
    let agents = AgentsManagerService::new(AgentConfig { virtual_agents: vec![] }, 0, 60_000).unwrap();
    let mut svc = MegaphoneService::new(Vec::new(), agents);
    let mut session = SyncSession::new();
    let start = SyncEvent::PipeAgentStart { name: String::from("peer"), key: vec![1u8; 32] };
    session.apply(&mut svc, start, 10).unwrap();
    assert!(svc.agents.is_agent_distributed("peer").unwrap());
    let again = SyncEvent::PipeAgentStart { name: String::from("peer"), key: vec![1u8; 32] };
    assert!(session.apply(&mut svc, again, 11).is_err());
    let id = format!("peer.{}.1", "z".repeat(50));
    session.apply(&mut svc, SyncEvent::ChannelCreated { id: id.clone() }, 12).unwrap();
    let ev = Event { stream_id: String::from("s"), event_id: String::from("e"), timestamp: 12, body: String::from("{}") };
    session.apply(&mut svc, SyncEvent::EventReceived { channel: id.clone(), event: ev }, 12).unwrap();
    assert_eq!(svc.channels[0].queue.len(), 1);
    session.apply(&mut svc, SyncEvent::ChannelDisposed { id: id.clone() }, 13).unwrap();
    assert!(svc.channel_exists(&id));
    session.close(&mut svc);
    assert!(!svc.agents.is_agent_distributed("peer").unwrap());
}

#[test]
fn closing_a_session_ends_one_replica_session_each() {
    let agents = AgentsManagerService::new(AgentConfig { virtual_agents: vec![] }, 0, 60_000).unwrap();
    let mut svc = MegaphoneService::new(Vec::new(), agents);
    svc.agents.open_replica_session("peer", &[5u8; 32], 0).unwrap();
    svc.agents.open_replica_session("peer", &[5u8; 32], 0).unwrap();
    let mut session = SyncSession::new();
    let start = SyncEvent::PipeAgentStart { name: String::from("other"), key: vec![6u8; 32] };
    session.apply(&mut svc, start, 1).unwrap();
    session.close(&mut svc);
    assert!(svc.agents.is_agent_distributed("peer").unwrap());
    assert!(!svc.agents.is_agent_distributed("other").unwrap());
}
