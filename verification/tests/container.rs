use oom_tui::container::{container_id, identify, is_hex_id, pod_uid, qos_class, short, Runtime};

#[test]
fn decodes_kubernetes_systemd_driver_path() {
    let id = identify("/kubepods.slice/kubepods-burstable.slice/kubepods-burstable-pod9f2c_4b21.slice/cri-containerd-3f8a9c2b1d4e5f6a7b8c9d0e1f2a3b4c5d6e7f8a9b0c1d2e3f4a5b6c7d8e9f0a.scope").unwrap();
    assert_eq!(id.runtime, Runtime::Kubernetes);
    assert_eq!(id.qos_class.as_deref(), Some("Burstable"));
    // Underscores in the systemd slice name are really dashes in the UID.
    assert_eq!(id.pod_uid.as_deref(), Some("9f2c-4b21"));
    assert!(id.container_id.unwrap().starts_with("3f8a9c2b"));
}

#[test]
fn decodes_kubernetes_cgroupfs_driver_path() {
    let id = identify(
        "/kubepods/besteffort/pod1234abcd/9f8e7d6c5b4a39281706f5e4d3c2b1a09f8e7d6c5b4a39281706f5e4d3c2b1a0",
    )
    .unwrap();
    assert_eq!(id.runtime, Runtime::Kubernetes);
    assert_eq!(id.qos_class.as_deref(), Some("BestEffort"));
    assert!(id.container_id.is_some());
}

#[test]
fn decodes_plain_docker_path() {
    let id = identify("/docker/aabbccddeeff00112233445566778899aabbccddeeff001122334455667788990").unwrap();
    assert_eq!(id.runtime, Runtime::Docker);
    assert!(id.container_id.is_some());
}

#[test]
fn decodes_podman_scope() {
    let id = identify("/machine.slice/libpod-aabbccddeeff00112233445566778899aabbccddeeff0011223344556677889.scope").unwrap();
    assert_eq!(id.runtime, Runtime::Podman);
}

#[test]
fn decodes_systemd_service() {
    let id = identify("/system.slice/nginx.service").unwrap();
    assert_eq!(id.runtime, Runtime::SystemdUnit);
    assert_eq!(id.unit.as_deref(), Some("nginx.service"));
}

#[test]
fn decodes_user_session() {
    let id = identify("/user.slice/user-1000.slice/session-1.scope").unwrap();
    assert_eq!(id.runtime, Runtime::UserSession);
}

#[test]
fn returns_none_rather_than_guessing_for_the_root_cgroup() {
    assert!(identify("/").is_none());
    assert!(identify("").is_none());
}

#[test]
fn summary_is_human_readable() {
    let id = identify("/kubepods.slice/kubepods-burstable.slice/kubepods-burstable-pod9f2c_4b21.slice/cri-containerd-3f8a9c2b1d4e5f6a7b8c9d0e1f2a3b4c5d6e7f8a9b0c1d2e3f4a5b6c7d8e9f0a.scope").unwrap();
    let summary = id.summary();
    assert!(summary.contains("kubernetes"));
    assert!(summary.contains("Burstable"));
    assert!(!summary.contains("3f8a9c2b1d4e5f6a7b8c9d0e"), "id should be shortened");
}

#[test]
fn summary_spells_out_every_decoded_part() {
    let id = identify("/kubepods.slice/kubepods-burstable.slice/kubepods-burstable-pod9f2c_4b21.slice/cri-containerd-3f8a9c2b1d4e5f6a7b8c9d0e1f2a3b4c5d6e7f8a9b0c1d2e3f4a5b6c7d8e9f0a.scope").unwrap();
    assert_eq!(id.summary(), "kubernetes · Burstable · pod 9f2c-4b21 · container 3f8a9c2b1d4e");
    assert_eq!(Runtime::Docker.label(), "docker");
    assert_eq!(Runtime::UserSession.label(), "user session");
}

#[test]
fn segment_decoders_agree_with_the_path_decoder() {
    assert_eq!(short("3f8a9c2b1d4e5f6a7b8c"), "3f8a9c2b1d4e");
    assert_eq!(short("abc"), "abc");
    assert!(is_hex_id("aabbccddeeff"));
    assert!(!is_hex_id("aabbccddeef"));
    assert!(!is_hex_id("aabbccddeeffg"));
    assert_eq!(
        container_id("cri-containerd-3f8a9c2b1d4e5f6a.scope").as_deref(),
        Some("3f8a9c2b1d4e5f6a")
    );
    assert_eq!(container_id("session-1.scope"), None);
    assert_eq!(pod_uid("kubepods-burstable-pod9f2c_4b21.slice").as_deref(), Some("9f2c-4b21"));
    // "pod" inside "kubepods" is not a pod UID
    assert_eq!(pod_uid("kubepods-burstable.slice"), None);
    assert_eq!(qos_class("/kubepods/besteffort/x").as_deref(), Some("BestEffort"));
    assert_eq!(qos_class("/kubepods/pod1").as_deref(), Some("Guaranteed"));
    assert_eq!(qos_class("/system.slice"), None);
}

#[test]
fn identities_follow_their_laws() {
    let path = "/kubepods/besteffort/pod1234abcd/9f8e7d6c5b4a39281706f5e4d3c2b1a09f8e7d6c5b4a39281706f5e4d3c2b1a0";
    assert_eq!(identify(&format!("  {path}\n")), identify(path));
    let id = identify(path).unwrap();
    let c = id.container_id.unwrap();
    assert!(c.len() >= 12 && c.chars().all(|ch| ch.is_ascii_hexdigit()) && path.contains(&c));
    assert!(identify("///").is_none());
    let docker = identify("/docker/3f8a9c2b1d4e5f6a7b8c").unwrap();
    assert_ne!(docker.runtime, Runtime::Kubernetes);
    assert!(docker.pod_uid.is_none() && docker.qos_class.is_none());
}
