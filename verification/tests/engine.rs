use rootspace::ecs::assembly::Assembly;
use rootspace::ecs::event::{EcsEvent, EventTrait};
use rootspace::ecs::system::SystemTrait;
use rootspace::ecs::world::World;
use rootspace::engine::common::convex_hull::Error as HullError;
use rootspace::engine::common::file_manipulation::{verify_accessible_file, FileError, FileStatus};
use rootspace::engine::common::half_edge_mesh::Error as MeshError;
use rootspace::engine::common::hierarchy::{GraphError, HierNode, Hierarchy};
use rootspace::engine::common::text_rendering::quad_indices;
use rootspace::engine::common::resource_group::{ResourceError, ShaderGroup, TextureGroup};
use rootspace::engine::components::description::Description;
use rootspace::engine::components::tooltip::TooltipData;
use rootspace::engine::debugging::debug_shell::{CustomCommand, DebugShell, DebugShellError, ShellResult,
    speech_bubble_from_matches, HELP_TEXT};
use rootspace::engine::debugging::event_monitor::EventMonitor;
use rootspace::engine::event::{ElementState, EngineEvent, EngineEventFlag, MouseButton};
use rootspace::engine::orchestrator::{FrameClock, Orchestrator};

#[test]
fn test_engine_event_flags() {
    let all = EngineEventFlag::new(EngineEventFlag::ALL_EVENTS);
    let console = EngineEventFlag::new(EngineEventFlag::CONSOLE_COMMAND);
    assert!(EngineEvent::Shutdown.match_filter(all));
    assert!(EngineEvent::MouseInput(MouseButton::Left, ElementState::Pressed).match_filter(all));
    assert!(EngineEvent::ConsoleCommand(vec![]).match_filter(console));
    assert!(!EngineEvent::Ready.match_filter(console));
    assert_eq!(EngineEventFlag::from(EngineEvent::CursorPosition(1, 2)).bits, 0x100);
    assert_eq!(EngineEventFlag::from(EngineEvent::ResizeWindow(3, 4)).bits, 0x20);
    assert_eq!(console.union(EngineEventFlag::new(EngineEventFlag::READY)).bits, 0x0c);
}

#[test]
fn test_engine_event_conversion() {
    assert_eq!(EngineEvent::from(EcsEvent::Shutdown), EngineEvent::Shutdown);
    assert_eq!(EngineEvent::from(EcsEvent::ImmediateShutdown), EngineEvent::ImmediateShutdown);
    assert_eq!(EngineEvent::from(EcsEvent::Ready), EngineEvent::Ready);
    assert_eq!(EngineEvent::Ready.as_ecs_event(), Some(EcsEvent::Ready));
    assert_eq!(EngineEvent::ReloadShaders.as_ecs_event(), None);
    assert_eq!(EngineEvent::from(EcsEvent::Shutdown).as_ecs_event(), Some(EcsEvent::Shutdown));
}

#[test]
fn test_verify_accessible_file() {
    let missing = FileStatus::new("a/b.txt", false, false);
    assert!(matches!(verify_accessible_file(&missing), Err(FileError::FileNotFound(p)) if p == "a/b.txt"));
    let dir = FileStatus::new("a", true, false);
    assert!(matches!(verify_accessible_file(&dir), Err(FileError::NotAFile(p)) if p == "a"));
    let file = FileStatus::new("a/c.txt", true, true);
    assert!(verify_accessible_file(&file).is_ok());
}

#[test]
fn test_shader_group() {
    let v = FileStatus::new("v.glsl", true, true);
    let f = FileStatus::new("f.glsl", true, true);
    let g = FileStatus::new("g.glsl", false, false);
    let s = ShaderGroup::new(&v, &f, None).unwrap();
    assert_eq!(s.vertex, "v.glsl");
    assert_eq!(s.fragment, "f.glsl");
    assert_eq!(s.geometry, None);
    assert!(matches!(ShaderGroup::new(&v, &f, Some(&g)),
        Err(ResourceError::FileError(FileError::FileNotFound(p))) if p == "g.glsl"));
    let bad_fragment = FileStatus::new("dir", true, false);
    assert!(matches!(ShaderGroup::new(&v, &bad_fragment, Some(&g)),
        Err(ResourceError::FileError(FileError::NotAFile(p))) if p == "dir"));
}

#[test]
fn test_texture_group() {
    let d = FileStatus::new("d.png", true, true);
    let n = FileStatus::new("n.png", false, false);
    let t = TextureGroup::new(Some(&d), None).unwrap();
    assert_eq!(t.diffuse, Some("d.png".to_string()));
    assert_eq!(t.normal, None);
    assert!(TextureGroup::new(Some(&d), Some(&n)).is_err());
    assert_eq!(TextureGroup::empty(), TextureGroup { diffuse: None, normal: None });
}

#[test]
fn test_components() {
    assert_eq!(Description::new("crate").name, "crate");
    assert_eq!(TooltipData::new("A box").text, "A box");
    assert_eq!(HullError::from(MeshError::UnmatchedEdge), HullError::MeshError(MeshError::UnmatchedEdge));
}

#[test]
fn test_hierarchy() {
    let mut h: Hierarchy<u32, u32> = Hierarchy::new();
    assert!(h.has(&0));
    h.insert(1, 10);
    h.insert_child(&1, 2, 20).unwrap();
    assert!(matches!(h.insert_child(&9, 3, 30), Err(GraphError::KeyNotFound)));
    h.update(&|k: &u32, parent: &u32| parent + k).unwrap();
    assert_eq!(*h.borrow(&0).unwrap(), 0);
    assert_eq!(*h.borrow(&1).unwrap(), 1);
    assert_eq!(*h.borrow(&2).unwrap(), 3);
    assert!(matches!(h.remove(&0), Err(GraphError::CannotRemoveRootNode)));
    assert!(matches!(h.remove(&7), Err(GraphError::KeyNotFound)));
    h.remove(&1).unwrap();
    assert!(!h.has(&1));
    assert!(h.has(&2));
    *h.borrow_mut(&2).unwrap() = 5;
    assert_eq!(*h.borrow(&2).unwrap(), 5);
    assert_eq!(h.iter().len(), 2);
    let mut n = HierNode::new(4u32, 1u32);
    n.update(&6, &|k: &u32, p: &u32| k * p);
    assert_eq!(n.data, 24);
}

fn strings(args: &[&str]) -> Vec<String> {
    args.iter().map(|s| s.to_string()).collect()
}

struct Echo;

impl CustomCommand for Echo {
    fn run(&self, args: &[String]) -> ShellResult {
        Ok(Some(EngineEvent::ConsoleCommand(args.to_vec())))
    }
}

#[test]
fn test_debug_shell_builtins() {
    let shell = DebugShell::new();
    let (r, m) = shell.interpret(&[]);
    assert!(matches!(r, Ok(None)) && m.is_none());
    let (r, m) = shell.interpret(&strings(&["help"]));
    assert!(matches!(r, Ok(None)));
    assert_eq!(m.unwrap(), HELP_TEXT);
    let (r, _) = shell.interpret(&strings(&["reload-shaders"]));
    assert_eq!(r.unwrap(), Some(EngineEvent::ReloadShaders));
    let (r, _) = shell.interpret(&strings(&["exit"]));
    assert_eq!(r.unwrap(), Some(EngineEvent::Shutdown));
    let (r, _) = shell.interpret(&strings(&["frobnicate", "x"]));
    match r {
        Err(e) => {
            assert!(matches!(&e, DebugShellError::CommandNotFound(n) if n == "frobnicate"));
            assert_eq!(e.message(), "'frobnicate' is not a recognized builtin or command");
        },
        _ => panic!("expected an error"),
    }
}

#[test]
fn test_debug_shell_speech_bubble() {
    let shell = DebugShell::new();
    let (r, m) = shell.interpret(&strings(&["speech-bubble", "bob", "hello"]));
    assert!(m.is_none());
    assert_eq!(r.unwrap(), Some(EngineEvent::SpeechBubble("bob".to_string(), "hello".to_string(), 5)));
    let (r, _) = shell.interpret(&strings(&["speech-bubble", "-l", "12", "bob", "hi"]));
    assert_eq!(r.unwrap(), Some(EngineEvent::SpeechBubble("bob".to_string(), "hi".to_string(), 12)));
    let (r, _) = shell.interpret(&strings(&["speech-bubble", "--lifetime", "x", "bob", "hi"]));
    assert!(matches!(r, Err(DebugShellError::ParseError(_))));
    let (r, _) = shell.interpret(&strings(&["speech-bubble", "bob"]));
    match r {
        Err(e) => {
            assert!(matches!(&e, DebugShellError::MissingArgument(c, a) if c == "speech-bubble" && a == "text"));
            assert_eq!(e.message(), "The required argument 'text' is missing for command 'speech-bubble'");
        },
        _ => panic!("expected an error"),
    }
    let (r, m) = shell.interpret(&strings(&["speech-bubble", "--bogus"]));
    assert!(matches!(r, Ok(None)));
    assert!(m.is_some());
}

#[test]
fn test_speech_bubble_from_matches() {
    let c = "speech-bubble".to_string();
    let r = speech_bubble_from_matches(&c, None, Some("a".to_string()), Some("b".to_string()));
    assert!(matches!(r, Err(DebugShellError::MissingArgument(_, a)) if a == "lifetime"));
    let r = speech_bubble_from_matches(&c, Some("+7".to_string()), None, Some("b".to_string()));
    assert!(matches!(r, Err(DebugShellError::MissingArgument(_, a)) if a == "target"));
    let r = speech_bubble_from_matches(&c, Some("18446744073709551616".to_string()), Some("a".to_string()), Some("b".to_string()));
    assert!(matches!(r, Err(DebugShellError::ParseError(_))));
    let r = speech_bubble_from_matches(&c, Some("+7".to_string()), Some("a".to_string()), Some("b".to_string()));
    assert_eq!(r.unwrap(), Some(EngineEvent::SpeechBubble("a".to_string(), "b".to_string(), 7)));
}

#[test]
fn test_debug_shell_custom_commands() {
    let mut shell = DebugShell::new();
    shell.add_command("echo", Echo);
    let (r, _) = shell.interpret(&strings(&["echo", "x"]));
    assert_eq!(r.unwrap(), Some(EngineEvent::ConsoleCommand(strings(&["echo", "x"]))));
    shell.remove_command("echo");
    let (r, _) = shell.interpret(&strings(&["echo", "x"]));
    assert!(matches!(r, Err(DebugShellError::CommandNotFound(_))));
}

#[test]
fn test_world_with_shell() {
    let mut world: World<EngineEvent, (), DebugShell> = World::new();
    world.add_system(DebugShell::new()).unwrap();
    world.dispatch(EngineEvent::ConsoleCommand(strings(&["exit"])));
    assert!(world.handle_events());
    world.dispatch(EngineEvent::ImmediateShutdown);
    assert!(!world.handle_events());
}

#[test]
fn test_world_with_monitor() {
    let mut world: World<EngineEvent, (), EventMonitor> = World::new();
    world.add_system(EventMonitor::new()).unwrap();
    world.dispatch(EngineEvent::Ready);
    assert!(world.handle_events());
}

#[test]
fn test_frame_clock_and_orchestrator() {
    let c = FrameClock::new(10, 25);
    assert_eq!(c, FrameClock { delta_time: 10, max_frame_time: 25, game_time: 0, accumulator: 0 });

    let mut o: Orchestrator<(), EventMonitor> = Orchestrator::new("res", 10, 25, true);
    o.world.add_system(EventMonitor::new()).unwrap();
    o.start();
    assert!(o.tick(7));
    assert_eq!(o.clock.game_time, 0);
    assert_eq!(o.clock.accumulator, 7);
    assert!(o.tick(100));
    assert_eq!(o.clock.game_time, 30);
    assert_eq!(o.clock.accumulator, 2);
    o.world.dispatch(EngineEvent::ImmediateShutdown);
    assert!(!o.tick(0));
    assert_eq!(o.resource_path, "res");
    assert!(o.debug);
}

#[test]
fn test_debug_shell_handle_event() {
    let mut shell = DebugShell::new();
    let mut assembly = Assembly::new();
    let r = shell.handle_event(&mut assembly, &mut (), &EngineEvent::ConsoleCommand(strings(&["help"])));
    assert!(r.0.is_none() && r.1.is_none());
    assert_eq!(shell.take_output(), vec![HELP_TEXT.to_string()]);
    let r = shell.handle_event(&mut assembly, &mut (), &EngineEvent::ConsoleCommand(strings(&["exit"])));
    assert_eq!(r.1, Some(vec![EngineEvent::Shutdown]));
    let r = shell.handle_event(&mut assembly, &mut (), &EngineEvent::ConsoleCommand(strings(&["nope"])));
    assert!(r.1.is_none());
    assert_eq!(shell.take_output(), vec!["'nope' is not a recognized builtin or command".to_string()]);
    let r = shell.handle_event(&mut assembly, &mut (), &EngineEvent::Ready);
    assert!(r.1.is_none());
    assert!(shell.take_output().is_empty());
}

#[test]
fn test_world_default_and_deref() {
    let mut world: World<EngineEvent, (), EventMonitor> = Default::default();
    let e = world.assembly_mut().create_entity();
    assert!(world.has_entity(&e));
    assert!(!world.rendering_suspended);
}

#[test]
fn test_quad_indices() {
    assert!(quad_indices(0).is_empty());
    assert_eq!(quad_indices(2), vec![0, 1, 2, 2, 3, 0, 4, 5, 6, 6, 7, 4]);
    let all = quad_indices(16384);
    assert_eq!(all.len(), 6 * 16384);
    assert_eq!(all[all.len() - 2], 65535);
}

#[test]
fn test_hierarchy_remove_moves_last_node() {
    let mut h: Hierarchy<u32, u32> = Hierarchy::new();
    h.insert(1, 0);
    h.insert(2, 0);
    h.insert_child(&2, 3, 0).unwrap();
    h.remove(&1).unwrap();
    let keys: Vec<u32> = h.iter().iter().map(|n| n.key).collect();
    assert_eq!(keys, vec![0, 3, 2]);
    h.update(&|k: &u32, parent: &u32| parent + k).unwrap();
    assert_eq!(*h.borrow(&2).unwrap(), 2);
    assert_eq!(*h.borrow(&3).unwrap(), 5);
}

#[test]
fn test_system_event_filters() {
    let monitor = EventMonitor::new();
    assert_eq!(
        SystemTrait::<EngineEvent, ()>::get_event_filter(&monitor),
        EngineEventFlag::new(EngineEventFlag::ALL_EVENTS)
    );
    let shell = DebugShell::new();
    assert_eq!(
        SystemTrait::<EngineEvent, ()>::get_event_filter(&shell),
        EngineEventFlag::new(EngineEventFlag::CONSOLE_COMMAND)
    );
}

#[test]
fn test_world_stages_keep_queue() {
    let mut world: World<EngineEvent, (), EventMonitor> = World::new();
    world.add_system(EventMonitor::new()).unwrap();
    world.dispatch(EngineEvent::Ready);
    let t = std::time::Duration::from_millis(10);
    world.update(&t, &t);
    world.dynamic_update(&t, &t);
    world.render(&t, &t);
    world.dispatch(EngineEvent::ImmediateShutdown);
    assert!(!world.handle_events());
}

#[test]
fn test_world_shutdown_queues_immediate_shutdown() {
    let mut world: World<EngineEvent, (), EventMonitor> = World::new();
    world.add_system(EventMonitor::new()).unwrap();
    world.dispatch(EngineEvent::Shutdown);
    assert!(world.handle_events());
    assert!(!world.handle_events());
    assert!(world.handle_events());
}

#[test]
fn test_debug_shell_speech_bubble_event() {
    let mut shell = DebugShell::new();
    let mut assembly = Assembly::new();
    let line = strings(&["speech-bubble", "-l", "3", "bob", "hello"]);
    let r = shell.handle_event(&mut assembly, &mut (), &EngineEvent::ConsoleCommand(line));
    assert_eq!(r.1, Some(vec![EngineEvent::SpeechBubble("bob".to_string(), "hello".to_string(), 3)]));
    assert!(shell.take_output().is_empty());
}
