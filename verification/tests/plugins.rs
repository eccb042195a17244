use pterminal::plugin_api::{
    PaneContentSnapshot, PaneStateSnapshot, SidebarViewContribution, TerminalTopology,
    WorkspaceTopology,
};
use pterminal::plugin_host::{
    HostRequest, HostRequestPayload, HostResponse, HostResponsePayload, PluginHostRuntime,
};
use pterminal::registry::ContributionRegistry;
use pterminal::sdk::{
    active_plugins_from, checked_payload, confirmation_from, handshake_from, CallKind, HostClient,
    HostTransport, InMemoryHostTransport, PluginContext, SdkError, TerminalIntrospectionApi,
    TerminalSnapshotProvider,
};

#[test]
fn runtime_handles_activate_list_and_deactivate() {
    let mut runtime = PluginHostRuntime::new(vec!["command.execute".into()]);

    let activated = runtime.handle(HostRequest {
        id: 1,
        payload: HostRequestPayload::Activate {
            plugin_id: "acme.workspace-sidebar".into(),
        },
    });
    assert_eq!(
        activated.payload,
        HostResponsePayload::Activated {
            plugin_id: "acme.workspace-sidebar".into()
        }
    );

    let listed = runtime.handle(HostRequest {
        id: 2,
        payload: HostRequestPayload::ListActivePlugins,
    });
    assert_eq!(
        listed.payload,
        HostResponsePayload::ActivePlugins {
            plugin_ids: vec!["acme.workspace-sidebar".into()]
        }
    );

    let deactivated = runtime.handle(HostRequest {
        id: 3,
        payload: HostRequestPayload::Deactivate {
            plugin_id: "acme.workspace-sidebar".into(),
        },
    });
    assert_eq!(
        deactivated.payload,
        HostResponsePayload::Deactivated {
            plugin_id: "acme.workspace-sidebar".into()
        }
    );
}

#[test]
fn runtime_lists_in_ascending_order_and_refuses_reload_of_inactive() {
    let mut runtime = PluginHostRuntime::new(vec![]);
    for (i, id) in ["zeta", "alpha", "mid", "alpha", "Beta", "alp"].iter().enumerate() {
        let r = runtime.handle(HostRequest {
            id: i as u64,
            payload: HostRequestPayload::Activate { plugin_id: id.to_string() },
        });
        assert_eq!(r.id, i as u64);
    }
    let listed = runtime.handle(HostRequest { id: 9, payload: HostRequestPayload::ListActivePlugins });
    assert_eq!(
        listed.payload,
        HostResponsePayload::ActivePlugins {
            plugin_ids: vec!["Beta".into(), "alp".into(), "alpha".into(), "mid".into(), "zeta".into()]
        }
    );
    let reload = runtime.handle(HostRequest {
        id: 10,
        payload: HostRequestPayload::Reload { plugin_id: "mid".into() },
    });
    assert_eq!(reload.payload, HostResponsePayload::Reloaded { plugin_id: "mid".into() });
    let reload = runtime.handle(HostRequest {
        id: 11,
        payload: HostRequestPayload::Reload { plugin_id: "nope".into() },
    });
    assert_eq!(
        reload.payload,
        HostResponsePayload::Error { message: "plugin not active: nope".into() }
    );
    let shake = runtime.handle(HostRequest {
        id: 12,
        payload: HostRequestPayload::Handshake {
            protocol_version: "0.1".into(),
            host_capabilities: vec!["x".into()],
        },
    });
    assert_eq!(
        shake.payload,
        HostResponsePayload::HandshakeAck { protocol_version: "1.0".into(), host_capabilities: vec![] }
    );
}

#[test]
fn plugin_context_collects_contributions() {
    let mut ctx = PluginContext::new("acme.workspace-sidebar");
    ctx.register_command("acme.workspace.focus", "Focus Workspace");
    ctx.register_sidebar_view("acme.workspace.tree", "Workspaces", 100);
    ctx.register_tab_type("acme.browser", "Browser");

    let contributes = ctx.contributions();
    assert_eq!(contributes.commands.len(), 1);
    assert_eq!(contributes.sidebar_views.len(), 1);
    assert_eq!(contributes.tab_types.len(), 1);
    assert_eq!(ctx.plugin_id(), "acme.workspace-sidebar");
    assert_eq!(contributes.sidebar_views[0].order, 100);
    assert_eq!(contributes.sidebar_views[0].icon, None);
    assert_eq!(contributes.commands[0].title, "Focus Workspace");
}

#[test]
fn host_client_controls_runtime_via_typed_rpc() {
    let transport = InMemoryHostTransport::new(vec!["command.execute".into()]);
    let mut client = HostClient::new(transport);

    let handshake = client.handshake("1.0").expect("handshake");
    assert_eq!(handshake.protocol_version, "1.0");
    assert_eq!(handshake.host_capabilities, vec!["command.execute"]);

    client
        .activate("acme.workspace-sidebar")
        .expect("activate plugin");
    let listed = client.list_active_plugins().expect("list active");
    assert_eq!(listed, vec!["acme.workspace-sidebar"]);

    client
        .deactivate("acme.workspace-sidebar")
        .expect("deactivate plugin");
    let listed = client.list_active_plugins().expect("list after deactivate");
    assert!(listed.is_empty());
}

#[test]
fn responses_are_checked_against_the_call() {
    let r = checked_payload(4, HostResponse { id: 5, payload: HostResponsePayload::Activated { plugin_id: "p".into() } });
    assert_eq!(r, Err(SdkError::MismatchedResponseId { expected: 4, got: 5 }));
    assert_eq!(r.unwrap_err().message(), "mismatched response id: expected 4, got 5");
    let r = checked_payload(5, HostResponse { id: 5, payload: HostResponsePayload::Activated { plugin_id: "p".into() } });
    assert_eq!(r, Ok(HostResponsePayload::Activated { plugin_id: "p".into() }));

    let e = handshake_from(HostResponsePayload::Activated { plugin_id: "p".into() }).unwrap_err();
    assert_eq!(e.message(), "unexpected handshake response");
    assert_eq!(confirmation_from(CallKind::Activate, HostResponsePayload::Activated { plugin_id: "p".into() }), Ok(()));
    assert_eq!(
        confirmation_from(CallKind::Activate, HostResponsePayload::Deactivated { plugin_id: "p".into() }),
        Err(SdkError::UnexpectedResponse("activate".into()))
    );
    assert_eq!(
        confirmation_from(CallKind::Deactivate, HostResponsePayload::Error { message: "no".into() }),
        Err(SdkError::Host("no".into()))
    );
    assert_eq!(
        active_plugins_from(HostResponsePayload::Reloaded { plugin_id: "p".into() }),
        Err(SdkError::UnexpectedResponse("list".into()))
    );
    assert_eq!(SdkError::Host("no".into()).message(), "no");
    assert_eq!(SdkError::Other("io".into()).message(), "io");
}

#[test]
fn registry_orders_sidebar_views_and_marks_active_item() {
    let mut registry = ContributionRegistry::new();
    registry.replace_sidebar_views(vec![
        SidebarViewContribution {
            id: "b".into(),
            title: "B".into(),
            icon: None,
            order: 200,
        },
        SidebarViewContribution {
            id: "a".into(),
            title: "A".into(),
            icon: None,
            order: 100,
        },
    ]);
    registry.set_active_sidebar("a");

    let items = registry.sidebar_items();
    assert_eq!(items.len(), 2);
    assert_eq!(items[0].view_id, "a");
    assert!(items[0].active);
}

#[test]
fn registry_maps_builtin_sidebar_to_workspace_indexes() {
    let mut registry = ContributionRegistry::new();
    registry.set_builtin_workspace_sidebar(3, 1);

    assert_eq!(registry.sidebar_id_at(0), Some("builtin.workspace.0"));
    assert_eq!(registry.sidebar_id_at(1), Some("builtin.workspace.1"));
    assert_eq!(
        ContributionRegistry::builtin_workspace_index("builtin.workspace.2"),
        Some(2)
    );
}

fn view(id: &str, title: &str, order: i32) -> SidebarViewContribution {
    SidebarViewContribution { id: id.into(), title: title.into(), icon: None, order }
}

#[test]
fn registry_sorts_by_order_then_title_keeping_ties_in_place() {
    let mut registry = ContributionRegistry::new();
    registry.replace_sidebar_views(vec![
        view("1", "b", 5),
        view("2", "a", 5),
        view("3", "z", -1),
        view("4", "a", 5),
        view("5", "B", 5),
    ]);
    let ids: Vec<String> = registry.sidebar_items().into_iter().map(|i| i.view_id).collect();
    assert_eq!(ids, vec!["3", "5", "2", "4", "1"]);
    registry.replace_sidebar_views(vec![view("x", "same", 1), view("y", "same", 1), view("w", "same", 1), view("a", "first", 0)]);
    let ids: Vec<String> = registry.sidebar_items().into_iter().map(|i| i.view_id).collect();
    assert_eq!(ids, vec!["a", "x", "y", "w"]);
    assert!(registry.sidebar_items().iter().all(|i| !i.active));
    assert_eq!(registry.sidebar_id_at(5), None);
}

#[test]
fn builtin_sidebar_titles_count_from_one() {
    let mut registry = ContributionRegistry::new();
    registry.set_builtin_workspace_sidebar(12, 10);
    let items = registry.sidebar_items();
    assert_eq!(items.len(), 12);
    assert_eq!(items[0].title, "Workspace 1");
    assert_eq!(items[10].view_id, "builtin.workspace.10");
    assert_eq!(items[10].title, "Workspace 11");
    assert!(items[10].active);
    assert_eq!(items.iter().filter(|i| i.active).count(), 1);
}

#[test]
fn builtin_index_parses_like_a_number() {
    let f = ContributionRegistry::builtin_workspace_index;
    assert_eq!(f("builtin.workspace.0"), Some(0));
    assert_eq!(f("builtin.workspace.007"), Some(7));
    assert_eq!(f("builtin.workspace.+5"), None);
    assert_eq!(f("builtin.workspace.5"), Some(5));
    assert_eq!(f("builtin.workspace."), None);
    assert_eq!(f("builtin.workspace.+"), None);
    assert_eq!(f("builtin.workspace.-1"), None);
    assert_eq!(f("builtin.workspace.1a"), None);
    assert_eq!(f("builtin.workspace"), None);
    assert_eq!(f("Builtin.workspace.1"), None);
    assert_eq!(f("builtin.workspace.\u{e9}"), None);
    assert_eq!(f("builtin.workspace.18446744073709551615"), Some(usize::MAX));
    assert_eq!(f("builtin.workspace.18446744073709551616"), None);
    assert_eq!(f("builtin.workspace.99999999999999999999999"), None);
}

struct MockTerminalProvider;

impl TerminalSnapshotProvider for MockTerminalProvider {
    fn topology(&self) -> Result<TerminalTopology, SdkError> {
        Ok(TerminalTopology {
            workspaces: vec![WorkspaceTopology {
                id: 1,
                name: "Main".into(),
                pane_ids: vec![10],
                active_pane_id: 10,
            }],
        })
    }

    fn pane_states(&self) -> Result<Vec<PaneStateSnapshot>, SdkError> {
        Ok(vec![PaneStateSnapshot {
            pane_id: 10,
            alive: true,
            title: "shell".into(),
            cwd: "/tmp".into(),
            rows: 24,
            cols: 80,
            focused: true,
        }])
    }

    fn pane_content(&self, pane_id: u64, max_lines: usize) -> Result<PaneContentSnapshot, SdkError> {
        Ok(PaneContentSnapshot {
            pane_id,
            text: format!("content:{max_lines}"),
            truncated: false,
        })
    }
}

#[test]
fn topology_read_requires_permission() {
    let mut api = TerminalIntrospectionApi::new(
        MockTerminalProvider,
        vec![],
        3,
    );
    let err = api.topology().expect_err("permission should be required");
    assert!(err.message().contains("terminal.topology.read"));

    let mut api = TerminalIntrospectionApi::new(
        MockTerminalProvider,
        vec!["terminal.topology.read".into()],
        3,
    );
    let topology = api.topology().expect("topology read");
    assert_eq!(topology.workspaces.len(), 1);
}

#[test]
fn pane_content_enforces_rate_limit() {
    let mut api = TerminalIntrospectionApi::new(
        MockTerminalProvider,
        vec!["terminal.pane.content.read".into()],
        2,
    );
    api.pane_content(10, 10).expect("first read");
    api.pane_content(10, 10).expect("second read");
    let err = api.pane_content(10, 10).expect_err("third read should fail");
    assert!(err.message().contains("rate limit"));
}

#[test]
fn pane_content_bounds_the_lines_and_needs_permission() {
    let mut api = TerminalIntrospectionApi::new(
        MockTerminalProvider,
        vec!["terminal.pane.content.read".into(), "terminal.pane.state.read".into()],
        0,
    );
    assert_eq!(api.pane_content(1, 0).unwrap().text, "content:1");
    assert_eq!(api.pane_content(1, 5).unwrap_err(), SdkError::RateLimited);
    assert_eq!(api.pane_states().unwrap().len(), 1);
    let mut api = TerminalIntrospectionApi::new(
        MockTerminalProvider,
        vec!["terminal.pane.content.read".into()],
        9,
    );
    assert_eq!(api.pane_content(1, 100_000).unwrap().text, "content:2000");
    assert_eq!(api.pane_content(1, 2000).unwrap().text, "content:2000");
    assert_eq!(api.pane_content(1, 77).unwrap().text, "content:77");
    assert_eq!(
        api.pane_states().unwrap_err(),
        SdkError::MissingPermission("terminal.pane.state.read".into())
    );
    assert_eq!(
        api.topology().unwrap_err().message(),
        "missing required permission: terminal.topology.read"
    );
}

fn manifest(id: &str, events: &[&str]) -> pterminal::plugin_api::PluginManifest {
    pterminal::plugin_api::PluginManifest {
        id: id.into(),
        name: "Name".into(),
        version: "0.1.0".into(),
        sdk: Default::default(),
        runtime: Default::default(),
        entry: "bin/plugin".into(),
        ui: Default::default(),
        activation_events: events.iter().map(|e| pterminal::plugin_api::ActivationEvent::named(e)).collect(),
        contributes: Default::default(),
        permissions: vec![],
    }
}

#[test]
fn activation_index_lists_plugins_by_event_in_order() {
    let manifests = vec![
        manifest("b", &["onStartupFinished", "onCommand:x"]),
        manifest("a", &["onStartupFinished"]),
        manifest("c", &[]),
        manifest("d", &["onCommand:x", "onCommand:a", "onCommand:x"]),
    ];
    let index = pterminal::plugin_api::build_activation_index(&manifests);
    let flat: Vec<(String, Vec<String>)> = index.into_iter().map(|(e, ids)| (e.0, ids)).collect();
    assert_eq!(
        flat,
        vec![
            ("onCommand:a".to_string(), vec!["d".to_string()]),
            ("onCommand:x".to_string(), vec!["b".to_string(), "d".to_string(), "d".to_string()]),
            ("onStartupFinished".to_string(), vec!["b".to_string(), "a".to_string()]),
        ]
    );
    assert!(pterminal::plugin_api::build_activation_index(&[]).is_empty());
}

#[test]
fn manifests_need_id_name_version_and_entry() {
    let validate = pterminal::plugin_api::validate_manifest;
    assert_eq!(validate(&manifest("acme.x", &[])), Ok(()));
    assert_eq!(validate(&manifest(" \t", &[])), Err("invalid manifest: id must not be empty".to_string()));
    assert_eq!(validate(&manifest("", &[])), Err("invalid manifest: id must not be empty".to_string()));
    let mut m = manifest("acme.x", &[]);
    m.entry = "\u{2003}\n".into();
    assert_eq!(validate(&m), Err("invalid manifest: entry must not be empty".to_string()));
    m.version = String::new();
    assert_eq!(validate(&m), Err("invalid manifest: version must not be empty".to_string()));
    m.name = " ".into();
    assert_eq!(validate(&m), Err("invalid manifest: name must not be empty".to_string()));
    assert_eq!(pterminal::plugin_api::SdkManifest::default().version, "1.x");
}

#[test]
fn rpc_methods_are_known_by_name_and_alias() {
    use_rpc();
}

fn use_rpc() {
    let parse = pterminal::ipc::parse_method;
    assert_eq!(parse("ping"), Some(pterminal::ipc::RpcMethod::Ping));
    assert_eq!(parse("system.ping"), Some(pterminal::ipc::RpcMethod::Ping));
    assert_eq!(parse("workspace.select"), Some(pterminal::ipc::RpcMethod::WorkspaceSelect));
    assert_eq!(parse("capture-pane"), Some(pterminal::ipc::RpcMethod::PaneReadScreen));
    assert_eq!(parse("pane.read_screen"), Some(pterminal::ipc::RpcMethod::PaneReadScreen));
    assert_eq!(parse("notification.clear"), Some(pterminal::ipc::RpcMethod::NotificationClear));
    assert_eq!(parse("Ping"), None);
    assert_eq!(parse(""), None);
    let e = pterminal::ipc::dispatch_error("1.0", "ping").unwrap();
    assert_eq!((e.code, e.message.as_str()), (-32600, "Invalid Request"));
    let e = pterminal::ipc::dispatch_error("2.0", "nope").unwrap();
    assert_eq!((e.code, e.message.as_str()), (-32601, "Method not found: nope"));
    assert_eq!(pterminal::ipc::dispatch_error("2.0", "send"), None);
    assert_eq!(pterminal::ipc::JsonRpcError::parse_error().code, -32700);
    assert_eq!(pterminal::ipc::JsonRpcError::invalid_params("bad").code, -32602);
    assert_eq!(pterminal::ipc::JsonRpcError::internal_error("boom").message, "boom");
}

#[test]
fn in_memory_transport_answers_as_its_host_does() {
    let mut transport = InMemoryHostTransport::new(vec!["cap".into()]);
    let r = transport.request(HostRequest {
        id: 9,
        payload: HostRequestPayload::Activate { plugin_id: "p".into() },
    });
    assert_eq!(
        r,
        Ok(HostResponse { id: 9, payload: HostResponsePayload::Activated { plugin_id: "p".into() } })
    );
    let r = transport.request(HostRequest { id: 10, payload: HostRequestPayload::ListActivePlugins });
    assert_eq!(
        r,
        Ok(HostResponse {
            id: 10,
            payload: HostResponsePayload::ActivePlugins { plugin_ids: vec!["p".into()] }
        })
    );
    let r = transport.request(HostRequest {
        id: 11,
        payload: HostRequestPayload::Reload { plugin_id: "q".into() },
    });
    assert_eq!(
        r,
        Ok(HostResponse {
            id: 11,
            payload: HostResponsePayload::Error { message: "plugin not active: q".into() }
        })
    );
}
