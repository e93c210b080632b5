use megaphone::agents::VirtualAgentModeDto;
use megaphone::controller::{
    agents_to_pipe, compute_max_surge, plan_reconcile, build_vagent_id, classify_pod, compute_pipe_targets, compute_pod_labels, create_pod,
    determine_cluster_status, is_connection_label_key, connections_all_off, requeue_secs,
    required_services, services_to_delete, tear_down_list, AgentItem, ContainerView,
    MegaphonePodStatus, MegaphoneSpec, PodView, ResourceConstraints, ResourcesSpec,
};

fn s(x: &str) -> String {
    String::from(x)
}

fn spec(image: &str, replicas: usize) -> MegaphoneSpec {
    MegaphoneSpec { image: s(image), replicas, virtual_agents_per_node: 2, resources: None }
}

fn pod(name: &str, image: &str, accepts: bool) -> PodView {
    PodView {
        name: s(name),
        labels: vec![(s("accepts-new-channels"), s(if accepts { "ON" } else { "OFF" }))],
        container: Some(ContainerView { image: Some(s(image)), limits: None, requests: None }),
    }
}

#[test]
fn classification_covers_all_four_cases() {
    assert_eq!(classify_pod(true, true), MegaphonePodStatus::Active);
    assert_eq!(classify_pod(true, false), MegaphonePodStatus::QueuedForTearDown);
    assert_eq!(classify_pod(false, true), MegaphonePodStatus::WarmingUp);
    assert_eq!(classify_pod(false, false), MegaphonePodStatus::TearingDown);
}

#[test]
fn pods_must_match_image_and_resources() {
    let mut sp = spec("img:b", 2);
    assert!(sp.is_satisfied_by_pod(&pod("p", "img:b", true)));
    assert!(!sp.is_satisfied_by_pod(&pod("p", "img:a", true)));
    let no_container = PodView { name: s("p"), labels: vec![], container: None };
    assert!(!sp.is_satisfied_by_pod(&no_container));
    sp.resources = Some(ResourcesSpec {
        limits: Some(ResourceConstraints { cpu: Some(s("500m")), memory: None }),
        requests: None,
    });
    let mut p = pod("p", "img:b", true);
    p.container.as_mut().unwrap().limits = Some(vec![(s("cpu"), s("250m"))]);
    assert!(!sp.is_satisfied_by_pod(&p));
    p.container.as_mut().unwrap().limits = Some(vec![(s("cpu"), s("500m")), (s("memory"), s("1Gi"))]);
    assert!(sp.is_satisfied_by_pod(&p));
}

#[test]
fn buckets_are_sorted_and_excess_is_demoted() {
    let sp = spec("img:b", 2);
    let pods = vec![
        pod("mgp-c-3", "img:b", true),
        pod("mgp-c-1", "img:b", true),
        pod("mgp-c-2", "img:b", true),
        pod("mgp-c-0", "img:b", false),
        pod("mgp-c-9", "img:a", false),
        pod("mgp-c-8", "img:a", true),
    ];
    let st = determine_cluster_status(&sp, &pods);
    let names = |v: &Vec<usize>| v.iter().map(|i| pods[*i].name.clone()).collect::<Vec<_>>();
    assert_eq!(names(&st.queued_for_abort), vec![s("mgp-c-0")]);
    assert_eq!(names(&st.active), vec![s("mgp-c-2"), s("mgp-c-3")]);
    assert_eq!(names(&st.queued_for_tear_down), vec![s("mgp-c-8"), s("mgp-c-1")]);
    assert_eq!(names(&st.tearing_down), vec![s("mgp-c-9")]);
    assert!(st.warming_up.is_empty());
    assert_eq!(requeue_secs(&st), 10);
}

#[test]
fn tear_down_respects_the_surge() {
    let sp = spec("img:b", 2);
    let pods = vec![pod("a", "img:a", true), pod("b", "img:a", true), pod("c", "img:b", false)];
    let st = determine_cluster_status(&sp, &pods);
    assert_eq!(st.queued_for_tear_down.len(), 2);
    let list = tear_down_list(&st, 2);
    assert_eq!(list.len(), 1);
    assert_eq!(pods[list[0]].name, "a");
    let targets = compute_pipe_targets(&st, &list);
    assert_eq!(targets.iter().map(|i| pods[*i].name.clone()).collect::<Vec<_>>(), vec![s("b")]);
}

#[test]
fn steady_cluster_requeues_slowly() {
    let sp = spec("img:b", 2);
    let pods = vec![pod("a", "img:b", true), pod("b", "img:b", true)];
    let st = determine_cluster_status(&sp, &pods);
    assert_eq!(st.active.len(), 2);
    assert_eq!(requeue_secs(&st), 300);
    assert!(tear_down_list(&st, 2).is_empty());
}

#[test]
fn connection_labels_are_recognised() {
    assert!(is_connection_label_key("accepts-new-channels"));
    assert!(is_connection_label_key("megaphone-abc123-read"));
    assert!(is_connection_label_key("megaphone-X-write"));
    assert!(!is_connection_label_key("megaphone--read"));
    assert!(!is_connection_label_key("megaphone-a_b-read"));
    assert!(!is_connection_label_key("megaphone-cluster"));
    let off = vec![(s("megaphone-ab-read"), s("OFF")), (s("megaphone-cluster"), s("c"))];
    assert!(connections_all_off(&off));
    let on = vec![(s("megaphone-ab-write"), s("ON"))];
    assert!(!connections_all_off(&on));
}

#[test]
fn pod_labels_follow_agent_modes() {
    let now = 1_000_000u64;
    let agents = vec![
        AgentItem { name: s("m"), mode: VirtualAgentModeDto::Master, since: 0, warming_up: false, channels_count: 0 },
        AgentItem { name: s("r"), mode: VirtualAgentModeDto::Replica, since: now - 40_000, warming_up: false, channels_count: 3 },
        AgentItem { name: s("p"), mode: VirtualAgentModeDto::Piped, since: now - 50_000, warming_up: false, channels_count: 3 },
    ];
    let labels = compute_pod_labels(&agents, false, now, "c");
    assert_eq!(labels[0], (s("megaphone-m-write"), s("ON")));
    assert_eq!(labels[1], (s("megaphone-m-read"), s("ON")));
    assert_eq!(labels[2], (s("megaphone-r-write"), s("OFF")));
    assert_eq!(labels[3], (s("megaphone-r-read"), s("ON")));
    assert_eq!(labels[4], (s("megaphone-p-write"), s("ON")));
    assert_eq!(labels[5], (s("megaphone-p-read"), s("OFF")));
    assert_eq!(labels[6], (s("megaphone-cluster"), s("c")));
    assert_eq!(labels[7], (s("accepts-new-channels"), s("ON")));
    let terminating = compute_pod_labels(&agents, true, now, "c");
    assert_eq!(terminating[0].1, "OFF");
    assert_eq!(terminating[7].1, "OFF");
}

#[test]
fn vagent_ids_are_scrambled_hex() {
    let id = build_vagent_id(0, 0);
    assert_eq!(id.len(), 16);
    assert_eq!(id, "4d45474150484f4e");
    assert_eq!(build_vagent_id(1, 2), "4d4547405048 4f4c".replace(' ', ""));
}

#[test]
fn new_pods_start_closed_to_new_channels() {
    let sp = spec("img:b", 2);
    let plan = create_pod(&sp, "c", 7);
    assert_eq!(plan.name, "mgp-c-7");
    assert_eq!(plan.image, "img:b");
    assert_eq!(plan.virtual_agent_ids, vec![build_vagent_id(7, 0), build_vagent_id(7, 1)]);
    assert_eq!(plan.env[0], (format!("megaphone_agent.virtual.{}", plan.virtual_agent_ids[0]), s("MASTER")));
    assert_eq!(plan.labels.len(), 7);
    assert_eq!(plan.labels[6], (s("accepts-new-channels"), s("OFF")));
    assert_eq!(plan.labels[5], (s("megaphone-node"), s("mgp-c-7")));
    assert_eq!(create_pod(&sp, "c", 1234).name, "mgp-c-1234");
}

#[test]
fn services_are_generated_and_collected() {
    let required = required_services("c", &[s("a1")], &[s("mgp-c-0")]);
    let names: Vec<String> = required.iter().map(|p| p.name.clone()).collect();
    assert_eq!(names, vec![s("svc-c-a1-read"), s("svc-c-a1-write"), s("mgp-c-0"), s("svc-c")]);
    assert_eq!(required[2].port, 3001);
    let existing = vec![s("svc-c-a1-read"), s("svc-c-old-read"), s("mgp-c-9")];
    let gone = services_to_delete(&existing, &required);
    assert_eq!(gone, vec![s("svc-c-old-read"), s("mgp-c-9")]);
}

#[test]
fn pipe_targets_are_internal_service_urls() {
    assert_eq!(
        megaphone::controller::pipe_target_url("mgp-c-1", "ns"),
        "http://mgp-c-1.ns.svc.cluster.local:3001"
    );
}

#[test]
fn reconcile_plan_deletes_finished_pods_and_fills_up() {
    let sp = spec("img:b", 3);
    let mut done = pod("old-0", "img:a", false);
    done.labels.push((s("megaphone-ab-read"), s("OFF")));
    let mut busy = pod("old-1", "img:a", false);
    busy.labels.push((s("megaphone-cd-write"), s("ON")));
    let pods = vec![done, busy, pod("new-0", "img:b", true)];
    let plan = plan_reconcile(&sp, &pods);
    assert_eq!(plan.delete_now, vec![0]);
    assert_eq!(plan.status.tearing_down, vec![1]);
    assert_eq!(plan.create_count, 1);
    assert_eq!(plan.tear_down, vec![1]);
    assert_eq!(plan.pipe_targets, vec![2]);
    assert_eq!(plan.requeue_secs, 10);
    let agents = vec![
        AgentItem { name: s("m"), mode: VirtualAgentModeDto::Master, since: 0, warming_up: false, channels_count: 2 },
        AgentItem { name: s("q"), mode: VirtualAgentModeDto::Master, since: 0, warming_up: false, channels_count: 0 },
        AgentItem { name: s("p"), mode: VirtualAgentModeDto::Piped, since: 0, warming_up: false, channels_count: 5 },
    ];
    assert_eq!(agents_to_pipe(&agents), vec![s("m")]);
}

#[test]
fn upgrade_rollout_converges_without_losing_capacity() {
    let replicas = 2usize;
    let sp = spec("img:b", replicas);
    let mut pods = vec![pod("mgp-c-0", "img:a", true), pod("mgp-c-1", "img:a", true)];
    let mut next = 2;
    let surge = compute_max_surge(replicas);
    for _pass in 0..20 {
        let plan = plan_reconcile(&sp, &pods);
        let active_now = plan.status.active.len() + plan.status.queued_for_tear_down.len();
        assert!(active_now + surge >= replicas);
        let mut keep = Vec::new();
        for (i, p) in pods.iter().enumerate() {
            if !plan.delete_now.contains(&i) {
                let mut p = PodView { name: p.name.clone(), labels: p.labels.clone(), container: None };
                p.container = pods[i].container.as_ref().map(|c| ContainerView {
                    image: c.image.clone(),
                    limits: None,
                    requests: None,
                });
                if plan.tear_down.contains(&i) {
                    p.labels = vec![(s("accepts-new-channels"), s("OFF"))];
                } else if plan.status.warming_up.contains(&i) {
                    p.labels = vec![(s("accepts-new-channels"), s("ON"))];
                }
                keep.push(p);
            }
        }
        for _ in 0..plan.create_count {
            keep.push(pod(&format!("mgp-c-{next}"), "img:b", false));
            next += 1;
        }
        pods = keep;
    }
    let st = megaphone::controller::determine_cluster_status(&sp, &pods);
    assert_eq!(st.active.len(), 2);
    assert!(st.queued_for_tear_down.is_empty());
    assert!(st.tearing_down.is_empty());
    assert!(st.warming_up.is_empty());
    assert!(pods.iter().all(|p| p.container.as_ref().unwrap().image.as_deref() == Some("img:b")));
}

#[test]
fn idle_piped_agents_close_on_a_terminating_pod() {
    let now = 1_000_000u64;
    let agents = vec![AgentItem { name: s("p"), mode: VirtualAgentModeDto::Piped, since: now - 1_000, warming_up: false, channels_count: 0 }];
    let labels = compute_pod_labels(&agents, true, now, "c");
    assert_eq!(labels[0], (s("megaphone-p-write"), s("OFF")));
    assert_eq!(labels[1], (s("megaphone-p-read"), s("OFF")));
    let open = compute_pod_labels(&agents, false, now, "c");
    assert_eq!(open[0].1, "ON");
}

#[test]
fn services_carry_ports_and_selectors() {
    let required = required_services("c", &[s("a1")], &[s("mgp-c-0")]);
    assert_eq!(required[0].port, 3000);
    assert_eq!(required[0].selector, vec![(s("megaphone-cluster"), s("c")), (s("megaphone-a1-read"), s("ON"))]);
    assert_eq!(required[1].selector[1], (s("megaphone-a1-write"), s("ON")));
    assert_eq!(required[2].selector, vec![(s("megaphone-cluster"), s("c")), (s("megaphone-node"), s("mgp-c-0"))]);
    assert_eq!(required[3].selector[1], (s("accepts-new-channels"), s("ON")));
}

#[test]
fn pod_plans_carry_resources() {
    let mut sp = spec("img:b", 1);
    sp.resources = Some(ResourcesSpec {
        limits: Some(ResourceConstraints { cpu: Some(s("1")), memory: Some(s("1Gi")) }),
        requests: Some(ResourceConstraints { cpu: None, memory: Some(s("512Mi")) }),
    });
    let plan = create_pod(&sp, "c", 0);
    assert_eq!(plan.limits, Some(vec![(s("cpu"), s("1")), (s("memory"), s("1Gi"))]));
    assert_eq!(plan.requests, Some(vec![(s("memory"), s("512Mi"))]));
    assert_eq!(create_pod(&spec("img:b", 1), "c", 0).limits, None);
}

#[test]
fn only_warming_pods_are_aborted_and_active_ones_queued() {
    let sp = spec("img:b", 1);
    let pods = vec![pod("a", "img:b", false), pod("b", "img:b", true), pod("c", "img:b", true)];
    let st = determine_cluster_status(&sp, &pods);
    let names = |v: &Vec<usize>| v.iter().map(|i| pods[*i].name.clone()).collect::<Vec<_>>();
    assert_eq!(names(&st.queued_for_abort), vec![s("a")]);
    assert_eq!(names(&st.queued_for_tear_down), vec![s("b")]);
    assert_eq!(names(&st.active), vec![s("c")]);
    assert!(st.warming_up.is_empty());
}
