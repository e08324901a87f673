use runtime::fs::{AgentFileSystem, FsError, FsPath, FsRoot, OpenMode, Whence};
use runtime::{AgentId, AgentProgram, AgentRecord, Intent, IntentId, ModelDescriptor, PromptDescriptor, SovereigntyLevel};

fn fs_agent(n: u64) -> AgentId {
    let bytes = n.to_le_bytes();
    let mut uuid_bytes = [0u8; 16];
    uuid_bytes[..8].copy_from_slice(&bytes);
    AgentId::from_bytes(uuid_bytes)
}

fn fs_record(id: AgentId, priority: i32) -> AgentRecord {
    let intent = Intent::new_root(IntentId::new(), "fs task", Some(id));
    let program = AgentProgram::new(ModelDescriptor::new("mock", "v1"), PromptDescriptor::new(""));
    let mut r = AgentRecord::new(id, intent, program);
    r.scheduling_context.priority = priority;
    r
}

#[test]
fn test_path_parse_proc() {
    let path = FsPath::parse("/proc/01000000-0000-0000-0000-000000000000/trust_score").unwrap();
    assert_eq!(path.root, FsRoot::Proc);
    assert!(path.agent_id.is_some());
    assert_eq!(path.segments, vec!["trust_score"]);
}

#[test]
fn test_path_parse_home() {
    let path = FsPath::parse("/home/01000000-0000-0000-0000-000000000000/memory.json").unwrap();
    assert_eq!(path.root, FsRoot::Home);
    assert!(path.agent_id.is_some());
    assert_eq!(path.segments, vec!["memory.json"]);
}

#[test]
fn test_path_parse_shared() {
    let path = FsPath::parse("/shared/report.md").unwrap();
    assert_eq!(path.root, FsRoot::Shared);
    assert!(path.agent_id.is_none());
    assert_eq!(path.segments, vec!["report.md"]);
}

#[test]
fn test_path_invalid() {
    assert!(FsPath::parse("/invalid/path").is_err());
}

#[test]
fn path_parse_edge_cases() {
    assert_eq!(FsPath::parse("/proc").unwrap_err(), FsError::InvalidPath);
    assert_eq!(FsPath::parse("/home/not-a-uuid/x").unwrap_err(), FsError::InvalidPath);
    let p = FsPath::parse("///shared").unwrap();
    assert_eq!(p.root, FsRoot::Shared);
    assert!(p.segments.is_empty());
    let p = FsPath::parse("shared/a//b/").unwrap();
    assert_eq!(p.segments, vec!["a", "", "b", ""]);
}

#[test]
fn path_text_round_trip() {
    let id = fs_agent(1);
    let text = format!("/home/{}/notes/today.txt", id.to_string());
    let p = FsPath::parse(&text).unwrap();
    assert_eq!(p.agent_id, Some(id));
    assert_eq!(p.segments, vec!["notes", "today.txt"]);
    assert_eq!(p.to_string(), text);
    let s = FsPath::parse("/shared").unwrap();
    assert_eq!(s.to_string(), "/shared");
    assert_eq!(id.to_string(), "01000000-0000-0000-0000-000000000000");
}

#[test]
fn write_then_read_gives_the_bytes_back() {
    let owner = fs_agent(1);
    let mut afs = AgentFileSystem::new(vec![]);
    let path = format!("/home/{}/memory.json", owner.to_string());
    let mut h = afs.open(&path, OpenMode::Write, owner, SovereigntyLevel::Level0).unwrap();
    assert_eq!(afs.write(&mut h, b"hello world").unwrap(), 11);
    assert_eq!(h.position, 11);
    afs.close(h).unwrap();

    let mut r = afs.open(&path, OpenMode::Read, owner, SovereigntyLevel::Level0).unwrap();
    let mut buf = [0u8; 5];
    assert_eq!(afs.read(&mut r, &mut buf).unwrap(), 5);
    assert_eq!(&buf, b"hello");
    let mut rest = [0u8; 64];
    assert_eq!(afs.read(&mut r, &mut rest).unwrap(), 6);
    assert_eq!(&rest[..6], b" world");
    assert_eq!(afs.read(&mut r, &mut rest).unwrap(), 0);
    afs.close(r).unwrap();
}

#[test]
fn append_and_positioned_writes() {
    let owner = fs_agent(2);
    let mut afs = AgentFileSystem::new(vec![]);
    let path = format!("/home/{}/log", owner.to_string());
    let mut h = afs.open(&path, OpenMode::Write, owner, SovereigntyLevel::Level0).unwrap();
    afs.write(&mut h, b"abc").unwrap();
    afs.close(h).unwrap();

    let mut a = afs.open(&path, OpenMode::Append, owner, SovereigntyLevel::Level0).unwrap();
    afs.write(&mut a, b"def").unwrap();
    assert_eq!(a.position, 6);
    afs.close(a).unwrap();

    let mut w = afs.open(&path, OpenMode::Write, owner, SovereigntyLevel::Level0).unwrap();
    assert_eq!(afs.lseek(&mut w, 8, Whence::Start).unwrap(), 8);
    afs.write(&mut w, b"Z").unwrap();
    assert_eq!(w.position, 9);
    assert_eq!(afs.lseek(&mut w, -4, Whence::Current).unwrap(), 5);
    assert_eq!(afs.lseek(&mut w, 100, Whence::End).unwrap(), 109);
    assert_eq!(afs.lseek(&mut w, -4, Whence::End).unwrap(), 5);
    assert_eq!(w.position, 5);
    afs.close(w).unwrap();

    let mut r = afs.open(&path, OpenMode::Read, owner, SovereigntyLevel::Level0).unwrap();
    let mut buf = [9u8; 16];
    assert_eq!(afs.read(&mut r, &mut buf).unwrap(), 9);
    assert_eq!(&buf[..9], b"abcdef\0\0Z");
    assert_eq!(buf[9], 9);
}

#[test]
fn read_past_the_end_reads_nothing() {
    let owner = fs_agent(3);
    let mut afs = AgentFileSystem::new(vec![]);
    let path = format!("/home/{}/f", owner.to_string());
    let mut h0 = afs.open(&path, OpenMode::Write, owner, SovereigntyLevel::Level0).unwrap();
    afs.write(&mut h0, b"abc").unwrap();
    afs.close(h0).unwrap();
    let mut h = afs.open(&path, OpenMode::Read, owner, SovereigntyLevel::Level0).unwrap();
    assert_eq!(afs.lseek(&mut h, 10, Whence::Start).unwrap(), 10);
    let mut buf = [7u8; 4];
    assert_eq!(afs.read(&mut h, &mut buf).unwrap(), 0);
    assert_eq!(buf, [7u8; 4]);
    assert_eq!(h.position, 10);
}

#[test]
fn seek_from_the_end_of_a_missing_file_fails() {
    let owner = fs_agent(4);
    let mut afs = AgentFileSystem::new(vec![]);
    let path = format!("/home/{}/g", owner.to_string());
    let mut h = afs.open(&path, OpenMode::Write, owner, SovereigntyLevel::Level0).unwrap();
    assert_eq!(afs.lseek(&mut h, 2, Whence::Start).unwrap(), 2);
    assert!(matches!(afs.lseek(&mut h, 0, Whence::End), Err(FsError::NotFound)));
    assert_eq!(h.position, 2);
}

#[test]
fn writer_lock_is_exclusive_until_close() {
    let owner = fs_agent(3);
    let mut afs = AgentFileSystem::new(vec![]);
    let path = "/shared/report.md";
    // Opening a file that does not exist yet takes no lock; the write creates it.
    let mut init = afs.open(path, OpenMode::Write, owner, SovereigntyLevel::Level2).unwrap();
    afs.write(&mut init, b"v0").unwrap();
    assert!(afs.open(path, OpenMode::Write, owner, SovereigntyLevel::Level2).is_ok());
    afs.close(init).unwrap();
    let mut first = afs.open(path, OpenMode::Write, owner, SovereigntyLevel::Level2).unwrap();
    afs.write(&mut first, b"v1").unwrap();
    assert_eq!(afs.open(path, OpenMode::Write, owner, SovereigntyLevel::Level2).unwrap_err(), FsError::FileLocked);
    assert_eq!(afs.open(path, OpenMode::ReadWrite, owner, SovereigntyLevel::Level2).unwrap_err(), FsError::FileLocked);
    let reader = afs.open(path, OpenMode::Read, owner, SovereigntyLevel::Level2).unwrap();
    afs.close(first).unwrap();
    let second = afs.open(path, OpenMode::Write, owner, SovereigntyLevel::Level2).unwrap();
    assert!(second.id > reader.id);
    afs.close(second).unwrap();
    afs.close(reader).unwrap();
}

#[test]
fn permissions_follow_the_sovereignty_levels() {
    let owner = fs_agent(4);
    let other = fs_agent(5);
    let mut afs = AgentFileSystem::new(vec![fs_record(owner, 3)]);
    let home = format!("/home/{}/secret", owner.to_string());
    assert_eq!(
        afs.open(&home, OpenMode::Read, other, SovereigntyLevel::Level3).unwrap_err(),
        FsError::PermissionDenied { required: 0, current: 3 }
    );
    assert_eq!(
        afs.open("/shared/x", OpenMode::Read, owner, SovereigntyLevel::Level1).unwrap_err(),
        FsError::PermissionDenied { required: 2, current: 1 }
    );
    let proc_path = format!("/proc/{}/state", owner.to_string());
    assert_eq!(
        afs.open(&proc_path, OpenMode::Read, other, SovereigntyLevel::Level0).unwrap_err(),
        FsError::PermissionDenied { required: 1, current: 0 }
    );
    assert_eq!(
        afs.open(&proc_path, OpenMode::Write, owner, SovereigntyLevel::Level3).unwrap_err(),
        FsError::PermissionDenied { required: 0, current: 3 }
    );
    assert!(afs.open(&proc_path, OpenMode::Read, other, SovereigntyLevel::Level1).is_ok());
    assert_eq!(afs.open("/elsewhere/x", OpenMode::Read, owner, SovereigntyLevel::Level3).unwrap_err(), FsError::InvalidPath);
}

#[test]
fn proc_files_are_generated_from_the_record() {
    let agent = fs_agent(6);
    let mut afs = AgentFileSystem::new(vec![fs_record(agent, -42)]);
    let mut h = afs.open(&format!("/proc/{}/trust_score", agent.to_string()), OpenMode::Read, agent, SovereigntyLevel::Level0).unwrap();
    let mut buf = [0u8; 16];
    let n = afs.read(&mut h, &mut buf).unwrap();
    assert_eq!(&buf[..n], b"-42");
    let mut s = afs.open(&format!("/proc/{}/state", agent.to_string()), OpenMode::Read, agent, SovereigntyLevel::Level0).unwrap();
    let n = afs.read(&mut s, &mut buf).unwrap();
    assert_eq!(&buf[..n], b"Ready");
    let mut w = afs.open(&format!("/proc/{}/state", agent.to_string()), OpenMode::Read, agent, SovereigntyLevel::Level0).unwrap();
    assert_eq!(afs.write(&mut w, b"x").unwrap_err(), FsError::PermissionDenied { required: 0, current: 0 });
    let mut missing = afs.open(&format!("/proc/{}/nothing", agent.to_string()), OpenMode::Read, agent, SovereigntyLevel::Level0).unwrap();
    assert_eq!(afs.read(&mut missing, &mut buf).unwrap_err(), FsError::NotFound);
    let stranger = fs_agent(7);
    let mut none = afs.open(&format!("/proc/{}/state", stranger.to_string()), OpenMode::Read, stranger, SovereigntyLevel::Level0).unwrap();
    assert_eq!(afs.read(&mut none, &mut buf).unwrap_err(), FsError::NotFound);
}

#[test]
fn proc_files_follow_an_updated_record() {
    let agent = fs_agent(8);
    let other = fs_agent(9);
    let mut afs = AgentFileSystem::new(vec![fs_record(agent, 1)]);
    let path = format!("/proc/{}/trust_score", agent.to_string());
    let mut buf = [0u8; 16];
    let mut h = afs.open(&path, OpenMode::Read, agent, SovereigntyLevel::Level0).unwrap();
    let n = afs.read(&mut h, &mut buf).unwrap();
    assert_eq!(&buf[..n], b"1");
    afs.update_record(fs_record(agent, 7));
    let mut h = afs.open(&path, OpenMode::Read, agent, SovereigntyLevel::Level0).unwrap();
    let n = afs.read(&mut h, &mut buf).unwrap();
    assert_eq!(&buf[..n], b"7");
    assert_eq!(afs.lseek(&mut h, 0, Whence::End).unwrap(), 1);
    afs.update_record(fs_record(other, 3));
    let other_path = format!("/proc/{}/trust_score", other.to_string());
    let mut g = afs.open(&other_path, OpenMode::Read, other, SovereigntyLevel::Level0).unwrap();
    let n = afs.read(&mut g, &mut buf).unwrap();
    assert_eq!(&buf[..n], b"3");
}

#[test]
fn listing_directories() {
    let agent = fs_agent(8);
    let mut afs = AgentFileSystem::new(vec![fs_record(agent, 1)]);
    assert_eq!(
        afs.list(&format!("/proc/{}", agent.to_string()), agent, SovereigntyLevel::Level0).unwrap(),
        vec!["trust_score", "state"]
    );
    let home = format!("/home/{}", agent.to_string());
    assert_eq!(afs.list(&home, agent, SovereigntyLevel::Level0).unwrap_err(), FsError::NotFound);
    for name in ["a.txt", "b.txt", "a.txt"] {
        let mut h = afs.open(&format!("{}/{}", home, name), OpenMode::Write, agent, SovereigntyLevel::Level0).unwrap();
        afs.write(&mut h, b"1").unwrap();
        afs.close(h).unwrap();
    }
    let mut names = afs.list(&home, agent, SovereigntyLevel::Level0).unwrap();
    names.sort();
    assert_eq!(names, vec!["a.txt", "b.txt"]);
    assert!(afs.list("/shared", agent, SovereigntyLevel::Level2).unwrap().is_empty());
    assert_eq!(afs.list("/shared", agent, SovereigntyLevel::Level1).unwrap_err(), FsError::PermissionDenied { required: 2, current: 1 });
    assert_eq!(afs.list(&format!("/proc/{}", fs_agent(9).to_string()), agent, SovereigntyLevel::Level1).unwrap_err(), FsError::NotFound);
}

#[test]
fn room_checks_allow_ordinary_calls() {
    let owner = fs_agent(10);
    let mut afs = AgentFileSystem::new(vec![]);
    let path = format!("/home/{}/notes", owner.to_string());
    assert!(afs.can_open(&path, OpenMode::Write));
    assert!(afs.can_open("not a path", OpenMode::Read));
    let mut h = afs.open(&path, OpenMode::Write, owner, SovereigntyLevel::Level0).unwrap();
    assert!(afs.can_write(&h));
    afs.write(&mut h, b"x").unwrap();
    assert!(afs.can_write(&h));
    afs.close(h).unwrap();
    assert!(afs.can_open(&path, OpenMode::Read));
}

#[test]
fn write_through_a_read_handle_is_denied() {
    let owner = fs_agent(11);
    let mut afs = AgentFileSystem::new(vec![]);
    let path = format!("/home/{}/f", owner.to_string());
    let mut h0 = afs.open(&path, OpenMode::Write, owner, SovereigntyLevel::Level0).unwrap();
    afs.write(&mut h0, b"abc").unwrap();
    afs.close(h0).unwrap();
    let mut h = afs.open(&path, OpenMode::Read, owner, SovereigntyLevel::Level0).unwrap();
    assert_eq!(afs.write(&mut h, b"xyz").unwrap_err(), FsError::PermissionDenied { required: 0, current: 0 });
    assert_eq!(h.position, 0);
    let mut buf = [0u8; 8];
    assert_eq!(afs.read(&mut h, &mut buf).unwrap(), 3);
    assert_eq!(&buf[..3], b"abc");
    afs.close(h).unwrap();
}

#[test]
fn seek_before_the_start_is_refused() {
    let owner = fs_agent(12);
    let mut afs = AgentFileSystem::new(vec![]);
    let path = format!("/home/{}/s", owner.to_string());
    let mut h = afs.open(&path, OpenMode::Write, owner, SovereigntyLevel::Level0).unwrap();
    afs.write(&mut h, b"abcd").unwrap();
    assert_eq!(h.position, 4);
    assert_eq!(afs.lseek(&mut h, -1, Whence::Start).unwrap_err(), FsError::InvalidPath);
    assert_eq!(afs.lseek(&mut h, -5, Whence::Current).unwrap_err(), FsError::InvalidPath);
    assert_eq!(afs.lseek(&mut h, -5, Whence::End).unwrap_err(), FsError::InvalidPath);
    assert_eq!(h.position, 4);
    assert_eq!(afs.lseek(&mut h, -4, Whence::End).unwrap(), 0);
    assert_eq!(afs.lseek(&mut h, isize::MAX, Whence::Start).unwrap(), isize::MAX as usize);
}
