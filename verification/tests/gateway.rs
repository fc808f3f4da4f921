use mux_core::config::Config;
use mux_core::config::default_models_file;
use mux_core::drivers::AnyDriver;
use mux_core::drivers::CandleDriver;
use mux_core::drivers::ChatRequest;
use mux_core::drivers::LlamaCppDriver;
use mux_core::drivers::VllmDriver;
use mux_core::lifecycle::AcquireAction;
use mux_core::lifecycle::LifecycleManager;
use mux_core::lifecycle::LoadResolution;
use mux_core::lifecycle::LoadState;
use mux_core::lifecycle::ReleaseAction;
use mux_core::lifecycle::UnloadOutcome;
use mux_core::protocol::Request;
use mux_core::protocol::Response;
use mux_core::protocol::handle;
use mux_core::registry::Backend;
use mux_core::registry::ModelRegistry;
use mux_core::registry::ModelSpec;
use mux_core::router::RelayOutput;
use mux_core::router::StreamEvent;
use mux_core::router::StreamRelay;
use mux_core::router::resolve;
use mux_core::router::serve_once;
use mux_core::transport::EchoStep;
use mux_core::transport::RelayStep;
use mux_core::transport::WsFrame;
use mux_core::transport::echo_step;
use mux_core::transport::relay_step;
use mux_core::ConfigError;
use mux_core::RouterError;
use mux_core::drivers::ChatChunk;

fn model(name: &str, backend: Backend) -> ModelSpec {
    ModelSpec {
        name: name.to_string(),
        path: format!("/models/{name}.gguf"),
        backend,
        tokenizer: "default".to_string(),
        quant: None,
        max_ctx: 4096,
    }
}

fn registry_with_m1() -> ModelRegistry {
    ModelRegistry::new(vec![model("m1", Backend::Candle)]).unwrap()
}

#[test]
fn registry_rejects_duplicate_names() {
    let r = ModelRegistry::new(vec![model("m1", Backend::Candle), model("m1", Backend::Vllm)]);
    assert!(matches!(r, Err(ConfigError::DuplicateName)));
}

#[test]
fn registry_rejects_zero_context_window() {
    let mut m = model("m1", Backend::Candle);
    m.max_ctx = 0;
    let r = ModelRegistry::new(vec![m]);
    assert!(matches!(r, Err(ConfigError::InvalidContextWindow)));
}

#[test]
fn registry_get_finds_known_model() {
    let reg = registry_with_m1();
    let m = reg.get(&"m1".to_string()).unwrap();
    assert_eq!(m.name, "m1");
    assert_eq!(m.max_ctx, 4096);
}

#[test]
fn registry_get_misses_unknown_model() {
    let reg = registry_with_m1();
    assert!(reg.get(&"ghost".to_string()).is_none());
}

#[test]
fn resolve_maps_missing_model_to_unknown_model() {
    let reg = registry_with_m1();
    assert!(resolve(&reg, &"m1".to_string()).is_ok());
    assert_eq!(resolve(&reg, &"ghost".to_string()).unwrap_err(), RouterError::UnknownModel);
}

#[test]
fn unknown_model_gets_error_and_no_driver_work() {
    let mut mgr = LifecycleManager::new(4, 4);
    let reg = registry_with_m1();
    let req = ChatRequest { prompt: "hi".to_string() };
    let r = serve_once(&mut mgr, &reg, 7, &"ghost".to_string(), &req);
    assert_eq!(r.unwrap_err(), RouterError::UnknownModel);
    // no load entry was ever created for the unknown name
    assert_eq!(mgr.entry_count(), 0);
    assert!(!mgr.has_load_entry(&"ghost".to_string()));
}

#[test]
fn entries_are_created_lazily() {
    let mut mgr = LifecycleManager::new(4, 4);
    let reg = ModelRegistry::new(vec![
        model("m1", Backend::Candle),
        model("m2", Backend::Vllm),
    ])
    .unwrap();
    let req = ChatRequest { prompt: "hi".to_string() };
    serve_once(&mut mgr, &reg, 1, &"m1".to_string(), &req).unwrap();
    assert!(mgr.has_load_entry(&"m1".to_string()));
    assert!(!mgr.has_load_entry(&"m2".to_string()));
    assert_eq!(mgr.entry_count(), 1);
}

#[test]
fn concurrent_acquires_coalesce_on_one_load() {
    let mut mgr = LifecycleManager::new(2, 1);
    let name = "m1".to_string();
    assert_eq!(mgr.acquire(&name, 1), AcquireAction::StartLoad);
    // the load is in flight: further callers wait, none starts a second load
    assert_eq!(mgr.acquire(&name, 2), AcquireAction::Wait);
    assert_eq!(mgr.acquire(&name, 3), AcquireAction::Wait);
    match mgr.load_resolved(&name, true) {
        LoadResolution::Loaded { granted, queued, rejected } => {
            assert_eq!(granted, vec![1, 2]);
            assert_eq!(queued, vec![3]);
            assert!(rejected.is_empty());
        }
        other => panic!("expected Loaded, got {other:?}"),
    }
    assert_eq!(mgr.lease_count(&name), 2);
}

#[test]
fn failed_load_notifies_every_waiter_and_allows_retry() {
    let mut mgr = LifecycleManager::new(2, 1);
    let name = "m1".to_string();
    assert_eq!(mgr.acquire(&name, 1), AcquireAction::StartLoad);
    assert_eq!(mgr.acquire(&name, 2), AcquireAction::Wait);
    match mgr.load_resolved(&name, false) {
        LoadResolution::Failed { notified } => assert_eq!(notified, vec![1, 2]),
        other => panic!("expected Failed, got {other:?}"),
    }
    // the entry reverts to Unloaded: the next caller gets a fresh attempt
    assert_eq!(mgr.state_of(&name), Some(LoadState::Unloaded));
    assert_eq!(mgr.acquire(&name, 3), AcquireAction::StartLoad);
}

#[test]
fn lease_count_never_drifts() {
    let mut mgr = LifecycleManager::new(4, 4);
    let name = "m1".to_string();
    assert_eq!(mgr.acquire(&name, 1), AcquireAction::StartLoad);
    mgr.load_resolved(&name, true);
    assert_eq!(mgr.lease_count(&name), 1);
    assert_eq!(mgr.acquire(&name, 2), AcquireAction::Granted);
    assert_eq!(mgr.acquire(&name, 3), AcquireAction::Granted);
    assert_eq!(mgr.lease_count(&name), 3);
    mgr.release(&name);
    mgr.release(&name);
    assert_eq!(mgr.lease_count(&name), 1);
    mgr.release(&name);
    assert_eq!(mgr.lease_count(&name), 0);
    // a defensive second release is a no-op, the count stays at zero
    assert_eq!(mgr.release(&name), ReleaseAction::NoOp);
    assert_eq!(mgr.lease_count(&name), 0);
}

#[test]
fn unload_fires_only_with_zero_leases() {
    let mut mgr = LifecycleManager::new(4, 4);
    let name = "m1".to_string();
    mgr.acquire(&name, 1);
    mgr.load_resolved(&name, true);
    assert_eq!(mgr.acquire(&name, 2), AcquireAction::Granted);
    // two leases held: releasing one must not arm the idle timer
    assert_eq!(mgr.release(&name), ReleaseAction::StillHeld);
    assert!(!mgr.idle_fired(&name));
    assert_eq!(mgr.state_of(&name), Some(LoadState::Ready));
    // the last release arms the timer; only then does the check fire
    assert_eq!(mgr.release(&name), ReleaseAction::IdleArmed);
    assert_eq!(mgr.lease_count(&name), 0);
    assert!(mgr.idle_fired(&name));
    assert_eq!(mgr.state_of(&name), Some(LoadState::Unloading));
    assert_eq!(mgr.unload_done(&name), UnloadOutcome::Done);
    assert_eq!(mgr.state_of(&name), Some(LoadState::Unloaded));
}

#[test]
fn fresh_acquire_cancels_pending_unload() {
    let mut mgr = LifecycleManager::new(4, 4);
    let name = "m1".to_string();
    mgr.acquire(&name, 1);
    mgr.load_resolved(&name, true);
    assert_eq!(mgr.release(&name), ReleaseAction::IdleArmed);
    // a new acquire in the idle window disarms the timer
    assert_eq!(mgr.acquire(&name, 2), AcquireAction::Granted);
    assert!(!mgr.idle_fired(&name));
    assert_eq!(mgr.state_of(&name), Some(LoadState::Ready));
}

#[test]
fn acquire_during_unload_reloads_afterwards() {
    let mut mgr = LifecycleManager::new(4, 4);
    let name = "m1".to_string();
    mgr.acquire(&name, 1);
    mgr.load_resolved(&name, true);
    mgr.release(&name);
    assert!(mgr.idle_fired(&name));
    // the unload is in flight; a new caller waits for it
    assert_eq!(mgr.acquire(&name, 2), AcquireAction::Wait);
    assert_eq!(mgr.unload_done(&name), UnloadOutcome::Reload);
    assert_eq!(mgr.state_of(&name), Some(LoadState::Loading));
    match mgr.load_resolved(&name, true) {
        LoadResolution::Loaded { granted, .. } => assert_eq!(granted, vec![2]),
        other => panic!("expected Loaded, got {other:?}"),
    }
}

#[test]
fn queue_is_fifo_and_bounded() {
    let mut mgr = LifecycleManager::new(1, 2);
    let name = "m1".to_string();
    mgr.acquire(&name, 1);
    mgr.load_resolved(&name, true);
    assert_eq!(mgr.acquire(&name, 2), AcquireAction::Queued);
    assert_eq!(mgr.acquire(&name, 3), AcquireAction::Queued);
    // queue of two is full: the next caller is turned away
    assert_eq!(mgr.acquire(&name, 4), AcquireAction::Overloaded);
    // freed slots go to the queued callers in arrival order
    assert_eq!(mgr.release(&name), ReleaseAction::HandedOver(2));
    assert_eq!(mgr.release(&name), ReleaseAction::HandedOver(3));
    assert_eq!(mgr.release(&name), ReleaseAction::IdleArmed);
}

#[test]
fn cancel_leaves_the_queue() {
    let mut mgr = LifecycleManager::new(1, 2);
    let name = "m1".to_string();
    mgr.acquire(&name, 1);
    mgr.load_resolved(&name, true);
    assert_eq!(mgr.acquire(&name, 2), AcquireAction::Queued);
    assert!(mgr.cancel_queued(&name, 2));
    assert!(!mgr.cancel_queued(&name, 2));
    assert_eq!(mgr.release(&name), ReleaseAction::IdleArmed);
}

#[test]
fn overload_one_served_one_rejected() {
    // ceiling of 1, queue of 0: of two concurrent requests one is served
    // and one is answered Overloaded
    let mut mgr = LifecycleManager::new(1, 0);
    let reg = registry_with_m1();
    let name = "m1".to_string();
    let req = ChatRequest { prompt: "hi".to_string() };
    mgr.acquire(&name, 1);
    mgr.load_resolved(&name, true);
    assert_eq!(mgr.lease_count(&name), 1);
    let second = serve_once(&mut mgr, &reg, 2, &name, &req);
    assert_eq!(second.unwrap_err(), RouterError::Overloaded);
    // the first caller still streams undisturbed and then releases
    assert_eq!(mgr.lease_count(&name), 1);
    assert_eq!(mgr.release(&name), ReleaseAction::IdleArmed);
}

#[test]
fn end_to_end_two_chunks_then_lease_released() {
    let mut mgr = LifecycleManager::new(4, 4);
    let reg = registry_with_m1();
    let req = ChatRequest { prompt: "hi".to_string() };
    let chunks = serve_once(&mut mgr, &reg, 1, &"m1".to_string(), &req).unwrap();
    assert_eq!(chunks.len(), 2);
    assert_eq!(chunks[0].text, "hello from candle stub");
    assert!(!chunks[0].done);
    assert_eq!(chunks[1].text, "");
    assert!(chunks[1].done);
    // the lease went back on completion
    assert_eq!(mgr.lease_count(&"m1".to_string()), 0);
}

#[test]
fn relay_forwards_stub_stream_in_order() {
    let mut relay = StreamRelay::new();
    let (o1, r1) = relay.step(StreamEvent::Chunk(ChatChunk {
        text: "partial".to_string(),
        done: false,
    }));
    match o1 {
        RelayOutput::Emit(c) => {
            assert_eq!(c.text, "partial");
            assert!(!c.done);
        }
        other => panic!("expected Emit, got {other:?}"),
    }
    assert!(!r1);
    let (o2, r2) = relay.step(StreamEvent::Chunk(ChatChunk { text: String::new(), done: true }));
    match o2 {
        RelayOutput::Emit(c) => {
            assert_eq!(c.text, "");
            assert!(c.done);
        }
        other => panic!("expected Emit, got {other:?}"),
    }
    // the lease is given back exactly when the stream terminates
    assert!(r2);
}

#[test]
fn relay_emits_nothing_after_done() {
    let mut relay = StreamRelay::new();
    relay.step(StreamEvent::Chunk(ChatChunk { text: "a".to_string(), done: false }));
    relay.step(StreamEvent::Chunk(ChatChunk { text: String::new(), done: true }));
    // whatever arrives after the terminal chunk is swallowed, and the
    // lease is not released a second time
    let (o3, r3) = relay.step(StreamEvent::Chunk(ChatChunk { text: "late".to_string(), done: false }));
    assert!(matches!(o3, RelayOutput::Nothing));
    assert!(!r3);
    let (o4, r4) = relay.step(StreamEvent::Failed);
    assert!(matches!(o4, RelayOutput::Nothing));
    assert!(!r4);
}

#[test]
fn relay_turns_failure_into_one_terminal_error() {
    let mut relay = StreamRelay::new();
    relay.step(StreamEvent::Chunk(ChatChunk { text: "a".to_string(), done: false }));
    let (o, released) = relay.step(StreamEvent::Failed);
    match o {
        RelayOutput::EmitError(e) => assert_eq!(e, RouterError::StreamError),
        other => panic!("expected EmitError, got {other:?}"),
    }
    assert!(released);
    // a failure terminates this one stream; nothing more comes out
    let (o2, r2) = relay.step(StreamEvent::Failed);
    assert!(matches!(o2, RelayOutput::Nothing));
    assert!(!r2);
}

#[test]
fn relay_cancellation_is_silent_but_releases() {
    let mut relay = StreamRelay::new();
    let (o, released) = relay.step(StreamEvent::Cancelled);
    // cancellation is caller-initiated: no error goes out, the lease does
    assert!(matches!(o, RelayOutput::Nothing));
    assert!(released);
}

#[test]
fn drivers_stream_their_stub_greeting() {
    let req = ChatRequest { prompt: "hi".to_string() };
    let candle = AnyDriver::for_backend(Backend::Candle, String::new());
    let llama = AnyDriver::for_backend(Backend::LlamaCpp, "http://localhost:8080".to_string());
    let vllm = AnyDriver::for_backend(Backend::Vllm, "http://localhost:8000".to_string());
    assert_eq!(candle.chat_chunks(&req)[0].text, "hello from candle stub");
    assert_eq!(llama.chat_chunks(&req)[0].text, "hello from llamacpp stub");
    assert_eq!(vllm.chat_chunks(&req)[0].text, "hello from vllm stub");
    for d in [candle, llama, vllm] {
        let chunks = d.chat_chunks(&req);
        assert_eq!(chunks.len(), 2);
        assert!(!chunks[0].done);
        assert!(chunks[1].done);
        assert!(d.ensure_loaded(&model("m1", Backend::Candle)).is_ok());
        assert!(d.health().is_ok());
        assert!(d.unload(&"m1".to_string()).is_ok());
    }
}

#[test]
fn driver_constructors_keep_their_endpoint() {
    let _local = CandleDriver::new();
    let llama = LlamaCppDriver::new("http://a:1".to_string());
    assert_eq!(llama.endpoint, "http://a:1");
    let vllm = VllmDriver::new("http://b:2".to_string());
    assert_eq!(vllm.endpoint, "http://b:2");
}

#[test]
fn ping_gets_pong() {
    assert!(matches!(handle(&Request::Ping), Response::Pong));
}

#[test]
fn config_defaults_and_construction() {
    assert_eq!(default_models_file(), "fixtures/models.yaml");
    let c = Config::new("custom.yaml".to_string());
    assert_eq!(c.models_file, "custom.yaml");
}

#[test]
fn transport_relay_decisions() {
    match relay_step(WsFrame::Text("line".to_string())) {
        RelayStep::WriteText(s) => assert_eq!(s, "line"),
        other => panic!("expected WriteText, got {other:?}"),
    }
    match relay_step(WsFrame::Binary(vec![104, 105])) {
        RelayStep::WriteBytes(b) => assert_eq!(b, vec![104, 105]),
        other => panic!("expected WriteBytes, got {other:?}"),
    }
    assert!(matches!(relay_step(WsFrame::Close), RelayStep::Stop));
    assert!(matches!(relay_step(WsFrame::Ping(vec![1])), RelayStep::Skip));
    assert!(matches!(relay_step(WsFrame::Pong(vec![2])), RelayStep::Skip));
}

#[test]
fn transport_echo_decisions() {
    match echo_step(WsFrame::Text("x".to_string())) {
        EchoStep::Send(WsFrame::Text(s)) => assert_eq!(s, "x"),
        other => panic!("expected Send(Text), got {other:?}"),
    }
    match echo_step(WsFrame::Binary(vec![3])) {
        EchoStep::Send(WsFrame::Binary(b)) => assert_eq!(b, vec![3]),
        other => panic!("expected Send(Binary), got {other:?}"),
    }
    match echo_step(WsFrame::Ping(vec![9])) {
        EchoStep::Send(WsFrame::Pong(p)) => assert_eq!(p, vec![9]),
        other => panic!("expected Send(Pong), got {other:?}"),
    }
    assert!(matches!(echo_step(WsFrame::Close), EchoStep::SendCloseAndStop));
    assert!(matches!(echo_step(WsFrame::Pong(vec![0])), EchoStep::Skip));
}

#[test]
fn load_resolution_rejects_waiters_past_both_bounds() {
    let mut mgr = LifecycleManager::new(1, 1);
    let name = "m1".to_string();
    assert_eq!(mgr.acquire(&name, 1), AcquireAction::StartLoad);
    assert_eq!(mgr.acquire(&name, 2), AcquireAction::Wait);
    assert_eq!(mgr.acquire(&name, 3), AcquireAction::Wait);
    match mgr.load_resolved(&name, true) {
        LoadResolution::Loaded { granted, queued, rejected } => {
            assert_eq!(granted, vec![1]);
            assert_eq!(queued, vec![2]);
            assert_eq!(rejected, vec![3]);
        }
        other => panic!("expected Loaded, got {other:?}"),
    }
    assert_eq!(mgr.lease_count(&name), 1);
}

#[test]
fn cancelled_waiter_misses_the_resolution() {
    let mut mgr = LifecycleManager::new(4, 4);
    let name = "m1".to_string();
    assert_eq!(mgr.acquire(&name, 1), AcquireAction::StartLoad);
    assert_eq!(mgr.acquire(&name, 2), AcquireAction::Wait);
    assert!(mgr.cancel_waiter(&name, 2));
    assert!(!mgr.cancel_waiter(&name, 2));
    match mgr.load_resolved(&name, true) {
        LoadResolution::Loaded { granted, queued, rejected } => {
            assert_eq!(granted, vec![1]);
            assert!(queued.is_empty());
            assert!(rejected.is_empty());
        }
        other => panic!("expected Loaded, got {other:?}"),
    }
}
