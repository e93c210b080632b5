use megaphone::agents::{AgentConfig, AgentsManagerService, VirtualAgentMode, VirtualAgentStatus};
use megaphone::channel_id::ChannelShortId;
use megaphone::error::MegaphoneError;
use megaphone::pipe::{Pipe, SyncEvent};

fn registry(names: &[&str]) -> AgentsManagerService {
    let conf = AgentConfig {
        virtual_agents: names.iter().map(|n| (String::from(*n), VirtualAgentMode::Master)).collect(),
    };
    AgentsManagerService::new(conf, 0, 60_000).expect("valid names")
}

#[test]
fn bad_agent_names_are_refused() {
    let conf = AgentConfig { virtual_agents: vec![(String::from("a.b"), VirtualAgentMode::Master)] };
    assert!(matches!(AgentsManagerService::new(conf, 0, 60_000), Err(MegaphoneError::BadRequest(_))));
    let mut reg = registry(&["ok_1-A"]);
    assert!(matches!(reg.add_master("", 0), Err(MegaphoneError::BadRequest(_))));
    assert!(matches!(reg.add_master("with space", 0), Err(MegaphoneError::BadRequest(_))));
    assert!(reg.add_master("fine-name_2", 0).is_ok());
}

#[test]
fn warming_masters_are_not_picked() {
    let reg = registry(&["alpha"]);
    assert!(matches!(reg.random_master_id(59_999), Err(MegaphoneError::InternalError(_))));
    assert_eq!(reg.random_master_id(60_000).unwrap(), "alpha");
    let listed = reg.list_agents(1_000);
    assert_eq!(listed.len(), 1);
    assert!(listed[0].warming_up);
}

#[test]
fn replica_sessions_count_up_and_down() {
    let mut reg = registry(&[]);
    let key = vec![7u8; 32];
    reg.open_replica_session("peer", &key, 5).unwrap();
    assert_eq!(reg.is_agent_distributed("peer").unwrap(), true);
    reg.open_replica_session("peer", &key, 6).unwrap();
    assert!(reg.open_replica_session("peer", &vec![8u8; 32], 6).is_err());
    reg.close_replica_session("peer").unwrap();
    reg.close_replica_session("peer").unwrap();
    assert_eq!(reg.is_agent_distributed("peer").unwrap(), false);
    assert!(reg.close_replica_session("peer").is_err());
    assert!(reg.is_agent_distributed("nobody").is_err());
}

#[test]
fn registering_a_pipe_announces_the_agent() {
    let mut reg = registry(&["alpha"]);
    let (tx, mut rx) = tokio::sync::mpsc::channel(4);
    reg.register_pipe("alpha", Pipe::new(tx), 10).unwrap();
    match rx.try_recv().unwrap() {
        SyncEvent::PipeAgentStart { name, key } => {
            assert_eq!(name, "alpha");
            assert_eq!(key.len(), 32);
        }
        _ => panic!("expected an agent start"),
    }
    assert_eq!(reg.get_pipes("alpha").len(), 1);
    assert!(reg.is_agent_distributed("alpha").unwrap());
    assert!(matches!(reg.agents[0].props.status, VirtualAgentStatus::Piped { .. }));
    let spare = reg.get_pipes("alpha")[0].duplicate();
    assert!(matches!(reg.register_pipe("nobody", spare, 0), Err(MegaphoneError::BadRequest(_))));
}

#[test]
fn a_full_pipe_leaves_the_agent_unchanged() {
    let mut reg = registry(&["alpha"]);
    let (tx, _rx) = tokio::sync::mpsc::channel(1);
    let filler = Pipe::new(tx.clone());
    assert!(filler.try_send(SyncEvent::ChannelDisposed { id: String::from("x") }));
    assert!(matches!(reg.register_pipe("alpha", Pipe::new(tx), 10), Err(MegaphoneError::InternalError(_))));
    assert!(matches!(reg.agents[0].props.status, VirtualAgentStatus::Master));
}

#[test]
fn sealed_ids_open_with_the_same_key_only() {
    let reg = registry(&["alpha", "beta"]);
    let id = ChannelShortId(0x0123_4567_89ab_cdef_0011_2233_4455_6677);
    let token = reg.encrypt_channel_id("alpha", id).unwrap();
    assert_eq!(token.len(), 59);
    assert_ne!(token.as_bytes(), &id.0.to_be_bytes()[..]);
    assert_eq!(reg.decrypt_channel_id("alpha", &token).unwrap(), id);
    assert!(matches!(reg.decrypt_channel_id("beta", &token), Err(MegaphoneError::BadRequest(_))));
    assert!(matches!(reg.decrypt_channel_id("alpha", "!!"), Err(MegaphoneError::BadRequest(_))));
    assert!(matches!(reg.decrypt_channel_id("alpha", "AAAA"), Err(MegaphoneError::BadRequest(_))));
    assert!(reg.encrypt_channel_id("gamma", id).is_err());
}

#[test]
fn sealing_with_a_given_nonce_is_deterministic() {
    let reg = registry(&["alpha"]);
    let id = ChannelShortId(42);
    let nonce = [9u8; 12];
    let a = reg.encrypt_channel_id_with_nonce("alpha", id, &nonce).unwrap();
    let b = reg.encrypt_channel_id_with_nonce("alpha", id, &nonce).unwrap();
    assert_eq!(a, b);
    assert_eq!(a.len(), 59);
    assert_eq!(reg.decrypt_channel_id("alpha", &a).unwrap(), id);
    assert!(matches!(reg.encrypt_channel_id_with_nonce("nobody", id, &nonce), Err(MegaphoneError::InternalError(_))));
}

#[test]
fn the_start_frame_carries_name_and_key() {
    match megaphone::agents::pipe_start_frame("alpha", &[1, 2, 3]) {
        SyncEvent::PipeAgentStart { name, key } => {
            assert_eq!(name, "alpha");
            assert_eq!(key, vec![1u8, 2, 3]);
        }
        _ => panic!("expected an agent start"),
    }
}

#[test]
fn a_second_pipe_is_appended() {
    let mut reg = registry(&["alpha"]);
    let (tx1, _rx1) = tokio::sync::mpsc::channel(4);
    let (tx2, _rx2) = tokio::sync::mpsc::channel(4);
    reg.register_pipe("alpha", Pipe::new(tx1), 1).unwrap();
    reg.register_pipe("alpha", Pipe::new(tx2), 2).unwrap();
    assert_eq!(reg.get_pipes("alpha").len(), 2);
    let mut replica = registry(&[]);
    replica.open_replica_session("peer", &[0u8; 32], 0).unwrap();
    let (tx3, _rx3) = tokio::sync::mpsc::channel(4);
    assert!(matches!(replica.register_pipe("peer", Pipe::new(tx3), 3), Err(MegaphoneError::BadRequest(_))));
}

#[test]
fn replica_names_are_validated() {
    let mut reg = registry(&[]);
    assert!(matches!(reg.open_replica_session("bad.name", &[0u8; 32], 0), Err(MegaphoneError::BadRequest(_))));
}

#[test]
fn a_refused_start_frame_leaves_the_agent_alone() {
    let mut reg = registry(&["alpha"]);
    let (tx, _rx) = tokio::sync::mpsc::channel(4);
    assert!(matches!(reg.finish_registration(0, Pipe::new(tx.clone()), false, 5), Err(MegaphoneError::InternalError(_))));
    assert!(matches!(reg.agents[0].props.status, VirtualAgentStatus::Master));
    reg.finish_registration(0, Pipe::new(tx), true, 5).unwrap();
    assert_eq!(reg.get_pipes("alpha").len(), 1);
    assert_eq!(reg.agents[0].props.change_ts, 5);
}

#[test]
fn a_tampered_token_is_refused() {
    let reg = registry(&["alpha"]);
    let token = reg.encrypt_channel_id("alpha", ChannelShortId(7)).unwrap();
    let mut bytes = token.into_bytes();
    let last = bytes.len() - 2;
    bytes[last] = if bytes[last] == b'A' { b'B' } else { b'A' };
    let tampered = String::from_utf8(bytes).unwrap();
    assert!(matches!(reg.decrypt_channel_id("alpha", &tampered), Err(MegaphoneError::BadRequest(_))));
}
