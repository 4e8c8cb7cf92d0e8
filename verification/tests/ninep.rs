use std::collections::BTreeMap;

use aos_realm::ninep::{
    DirectoryEntry, Errno, FileSystem, Metadata, NodeKind, AT_REMOVE_DIR, HEADER_BYTES,
    MAX_DIRECTORY_ENTRIES, MAX_MESSAGE_BYTES, MAX_QID_PATHS, NOFID, NOTAG, OPEN_EXCLUSIVE,
    OPEN_TRUNCATE, OPEN_WRITE_ONLY, RLERROR, TATTACH, TCLUNK, TLCREATE, TLOPEN, TMKDIR, TREAD,
    TREADDIR, TRENAMEAT, TUNLINKAT, TVERSION, TWALK, TWRITE,
};
use aos_realm::ninep_session::Session;
use aos_realm::ninep_wire::{Reader, Writer};

const VERSION: &str = "9P2000.L";

#[derive(Clone, Debug)]
struct MemoryNode {
    metadata: Metadata,
    data: Vec<u8>,
}

#[derive(Debug)]
struct MemoryFileSystem {
    nodes: BTreeMap<String, MemoryNode>,
    generation: u64,
}

impl MemoryFileSystem {
    fn new() -> Self {
        let mut nodes = BTreeMap::new();
        nodes.insert(
            String::new(),
            MemoryNode {
                metadata: metadata(NodeKind::Directory, 0, 0o755, 1),
                data: Vec::new(),
            },
        );
        Self {
            nodes,
            generation: 1,
        }
    }

    fn parent(path: &str) -> &str {
        path.rsplit_once('/')
            .map(|(parent, _)| parent)
            .unwrap_or("")
    }

    fn next_generation(&mut self) -> u64 {
        self.generation += 1;
        self.generation
    }

    fn require_parent(&self, path: &str) -> Result<(), Errno> {
        match self.nodes.get(Self::parent(path)) {
            Some(node) if node.metadata.kind == NodeKind::Directory => Ok(()),
            Some(_) => Err(Errno::NotDirectory),
            None => Err(Errno::NotFound),
        }
    }
}

impl FileSystem for MemoryFileSystem {
    fn metadata(&mut self, path: &str) -> Result<Metadata, Errno> {
        self.nodes
            .get(path)
            .map(|node| node.metadata.clone())
            .ok_or(Errno::NotFound)
    }

    fn read_dir(&mut self, path: &str) -> Result<Vec<DirectoryEntry>, Errno> {
        let node = self.nodes.get(path).ok_or(Errno::NotFound)?;
        if node.metadata.kind != NodeKind::Directory {
            return Err(Errno::NotDirectory);
        }
        let prefix = if path.is_empty() {
            String::new()
        } else {
            format!("{path}/")
        };
        Ok(self
            .nodes
            .iter()
            .filter_map(|(candidate, node)| {
                let suffix = candidate.strip_prefix(&prefix)?;
                (!suffix.is_empty() && !suffix.contains('/')).then(|| DirectoryEntry {
                    name: suffix.to_string(),
                    metadata: node.metadata.clone(),
                })
            })
            .collect())
    }

    fn read(&mut self, path: &str, offset: u64, count: u32) -> Result<Vec<u8>, Errno> {
        let node = self.nodes.get(path).ok_or(Errno::NotFound)?;
        if node.metadata.kind != NodeKind::File {
            return Err(Errno::IsDirectory);
        }
        let start = usize::try_from(offset).map_err(|_| Errno::InvalidArgument)?;
        if start >= node.data.len() {
            return Ok(Vec::new());
        }
        let end = start
            .saturating_add(usize::try_from(count).map_err(|_| Errno::MessageTooLarge)?)
            .min(node.data.len());
        Ok(node.data[start..end].to_vec())
    }

    fn write(&mut self, path: &str, offset: u64, data: &[u8]) -> Result<u32, Errno> {
        let start = usize::try_from(offset).map_err(|_| Errno::NoSpace)?;
        let end = start.checked_add(data.len()).ok_or(Errno::NoSpace)?;
        let generation = self.next_generation();
        let node = self.nodes.get_mut(path).ok_or(Errno::NotFound)?;
        if node.metadata.kind != NodeKind::File {
            return Err(Errno::IsDirectory);
        }
        node.data.resize(node.data.len().max(end), 0);
        node.data[start..end].copy_from_slice(data);
        node.metadata.len = node.data.len() as u64;
        node.metadata.generation = generation;
        u32::try_from(data.len()).map_err(|_| Errno::MessageTooLarge)
    }

    fn create_file(
        &mut self,
        path: &str,
        mode: u32,
        exclusive: bool,
        truncate: bool,
    ) -> Result<(), Errno> {
        self.require_parent(path)?;
        if let Some(existing) = self.nodes.get(path) {
            if exclusive {
                return Err(Errno::AlreadyExists);
            }
            if existing.metadata.kind != NodeKind::File {
                return Err(Errno::IsDirectory);
            }
        }
        let generation = self.next_generation();
        let node = self.nodes.entry(path.to_string()).or_insert(MemoryNode {
            metadata: metadata(NodeKind::File, 0, mode, generation),
            data: Vec::new(),
        });
        if truncate {
            node.data.clear();
            node.metadata.len = 0;
            node.metadata.generation = generation;
        }
        Ok(())
    }

    fn create_dir(&mut self, path: &str, mode: u32) -> Result<(), Errno> {
        self.require_parent(path)?;
        if self.nodes.contains_key(path) {
            return Err(Errno::AlreadyExists);
        }
        let generation = self.next_generation();
        self.nodes.insert(
            path.to_string(),
            MemoryNode {
                metadata: metadata(NodeKind::Directory, 0, mode, generation),
                data: Vec::new(),
            },
        );
        Ok(())
    }

    fn set_len(&mut self, path: &str, len: u64) -> Result<(), Errno> {
        let len = usize::try_from(len).map_err(|_| Errno::NoSpace)?;
        let generation = self.next_generation();
        let node = self.nodes.get_mut(path).ok_or(Errno::NotFound)?;
        if node.metadata.kind != NodeKind::File {
            return Err(Errno::IsDirectory);
        }
        node.data.resize(len, 0);
        node.metadata.len = len as u64;
        node.metadata.generation = generation;
        Ok(())
    }

    fn remove_file(&mut self, path: &str) -> Result<(), Errno> {
        match self.nodes.get(path) {
            Some(node) if node.metadata.kind == NodeKind::File => {}
            Some(_) => return Err(Errno::IsDirectory),
            None => return Err(Errno::NotFound),
        }
        self.nodes.remove(path);
        Ok(())
    }

    fn remove_dir(&mut self, path: &str) -> Result<(), Errno> {
        match self.nodes.get(path) {
            Some(node) if node.metadata.kind == NodeKind::Directory => {}
            Some(_) => return Err(Errno::NotDirectory),
            None => return Err(Errno::NotFound),
        }
        let prefix = format!("{path}/");
        if self
            .nodes
            .keys()
            .any(|candidate| candidate.starts_with(&prefix))
        {
            return Err(Errno::NotEmpty);
        }
        self.nodes.remove(path);
        Ok(())
    }

    fn rename(&mut self, source: &str, destination: &str) -> Result<(), Errno> {
        self.require_parent(destination)?;
        if !self.nodes.contains_key(source) {
            return Err(Errno::NotFound);
        }
        if self.nodes.contains_key(destination) {
            return Err(Errno::AlreadyExists);
        }
        let prefix = format!("{source}/");
        let moved: Vec<_> = self
            .nodes
            .iter()
            .filter(|(path, _)| path.as_str() == source || path.starts_with(&prefix))
            .map(|(path, node)| (path.clone(), node.clone()))
            .collect();
        for (path, _) in &moved {
            self.nodes.remove(path);
        }
        for (path, node) in moved {
            let suffix = path.strip_prefix(source).expect("selected source prefix");
            self.nodes.insert(format!("{destination}{suffix}"), node);
        }
        Ok(())
    }

    fn sync(&mut self, path: &str, _data_only: bool) -> Result<(), Errno> {
        self.nodes
            .contains_key(path)
            .then_some(())
            .ok_or(Errno::NotFound)
    }
}

fn metadata(kind: NodeKind, len: u64, mode: u32, generation: u64) -> Metadata {
    Metadata {
        kind,
        len,
        mode,
        modified_seconds: generation,
        generation,
    }
}

fn message(message_type: u8, tag: u16, body: impl FnOnce(&mut Writer)) -> Vec<u8> {
    let mut writer = Writer::response(message_type, tag);
    body(&mut writer);
    writer
        .finish(MAX_MESSAGE_BYTES)
        .expect("bounded test message")
}

fn response_type(response: &[u8]) -> u8 {
    response[4]
}

fn response_body(response: &[u8]) -> Reader<'_> {
    Reader::new(&response[HEADER_BYTES..])
}

fn assert_success(response: &[u8], request_type: u8) {
    assert_eq!(response_type(response), request_type + 1, "{response:?}");
}

fn negotiate_and_attach(session: &mut Session<MemoryFileSystem>) {
    let version = message(TVERSION, NOTAG, |writer| {
        writer.u32(MAX_MESSAGE_BYTES as u32);
        writer.string(VERSION).expect("version");
    });
    let response = session.serve(&version);
    assert_success(&response, TVERSION);

    let attach = message(TATTACH, 1, |writer| {
        writer.u32(1);
        writer.u32(NOFID);
        writer.string("agent").expect("uname");
        writer.string("home").expect("aname");
        writer.u32(1000);
    });
    assert_success(&session.serve(&attach), TATTACH);
}

#[test]
fn malformed_messages_and_wrong_exports_fail_as_rlerror() {
    let mut session = Session::new(MemoryFileSystem::new(), "home").expect("session");
    let mut malformed = message(TVERSION, 9, |writer| {
        writer.u32(MAX_MESSAGE_BYTES as u32);
        writer.string(VERSION).expect("version");
    });
    malformed[0] = 1;
    let response = session.serve(&malformed);
    assert_eq!(response_type(&response), RLERROR);
    assert_eq!(
        response_body(&response).u32(),
        Ok(Errno::InvalidArgument.code())
    );

    let version = message(TVERSION, NOTAG, |writer| {
        writer.u32(MAX_MESSAGE_BYTES as u32);
        writer.string(VERSION).expect("version");
    });
    assert_success(&session.serve(&version), TVERSION);
    let attach = message(TATTACH, 10, |writer| {
        writer.u32(1);
        writer.u32(NOFID);
        writer.string("agent").expect("uname");
        writer.string("workspace").expect("aname");
        writer.u32(1000);
    });
    let response = session.serve(&attach);
    assert_eq!(response_type(&response), RLERROR);
    assert_eq!(response_body(&response).u32(), Ok(Errno::Permission.code()));

    let mut strict = Session::new(MemoryFileSystem::new(), "home").expect("session");
    negotiate_and_attach(&mut strict);
    let mkdir_with_trailing_data = message(TMKDIR, 11, |writer| {
        writer.u32(1);
        writer.string("must-not-exist").expect("name");
        writer.u32(0o755);
        writer.u32(1000);
        writer.u8(0xff);
    });
    let response = strict.serve(&mkdir_with_trailing_data);
    assert_eq!(response_type(&response), RLERROR);
    assert!(!strict.filesystem().nodes.contains_key("must-not-exist"));
}

#[test]
fn linux_file_lifecycle_is_positional_bounded_and_rename_safe() {
    let mut session = Session::new(MemoryFileSystem::new(), "home").expect("session");
    negotiate_and_attach(&mut session);

    let mkdir = message(TMKDIR, 2, |writer| {
        writer.u32(1);
        writer.string("src").expect("name");
        writer.u32(0o755);
        writer.u32(1000);
    });
    assert_success(&session.serve(&mkdir), TMKDIR);

    let walk_src = message(TWALK, 3, |writer| {
        writer.u32(1);
        writer.u32(2);
        writer.u16(1);
        writer.string("src").expect("name");
    });
    assert_success(&session.serve(&walk_src), TWALK);

    let create = message(TLCREATE, 4, |writer| {
        writer.u32(2);
        writer.string("main.rs").expect("name");
        writer.u32(OPEN_WRITE_ONLY | OPEN_EXCLUSIVE | OPEN_TRUNCATE);
        writer.u32(0o644);
        writer.u32(1000);
    });
    assert_success(&session.serve(&create), TLCREATE);

    let source = b"fn main() {}\n";
    let write = message(TWRITE, 5, |writer| {
        writer.u32(2);
        writer.u64(0);
        writer.u32(source.len() as u32);
        writer.extend(source);
    });
    let response = session.serve(&write);
    assert_success(&response, TWRITE);
    assert_eq!(response_body(&response).u32(), Ok(source.len() as u32));

    let clunk = message(TCLUNK, 6, |writer| writer.u32(2));
    assert_success(&session.serve(&clunk), TCLUNK);

    let walk_file = message(TWALK, 7, |writer| {
        writer.u32(1);
        writer.u32(3);
        writer.u16(2);
        writer.string("src").expect("name");
        writer.string("main.rs").expect("name");
    });
    assert_success(&session.serve(&walk_file), TWALK);
    let open = message(TLOPEN, 8, |writer| {
        writer.u32(3);
        writer.u32(0);
    });
    assert_success(&session.serve(&open), TLOPEN);
    let read = message(TREAD, 9, |writer| {
        writer.u32(3);
        writer.u64(0);
        writer.u32(4096);
    });
    let response = session.serve(&read);
    assert_success(&response, TREAD);
    let mut body = response_body(&response);
    assert_eq!(body.u32(), Ok(source.len() as u32));
    assert_eq!(body.bytes(source.len()), Ok(source.as_slice()));

    let rename = message(TRENAMEAT, 10, |writer| {
        writer.u32(1);
        writer.string("src").expect("old name");
        writer.u32(1);
        writer.string("code").expect("new name");
    });
    assert_success(&session.serve(&rename), TRENAMEAT);
    assert_eq!(
        session.fid(3).map(|fid| fid.path.as_str()),
        Ok("code/main.rs")
    );

    let open_root = message(TLOPEN, 11, |writer| {
        writer.u32(1);
        writer.u32(0);
    });
    assert_success(&session.serve(&open_root), TLOPEN);
    let readdir = message(TREADDIR, 12, |writer| {
        writer.u32(1);
        writer.u64(0);
        writer.u32(4096);
    });
    let response = session.serve(&readdir);
    assert_success(&response, TREADDIR);
    assert!(response.windows(4).any(|window| window == b"code"));

    let unlink = message(TUNLINKAT, 13, |writer| {
        writer.u32(1);
        writer.string("code").expect("name");
        writer.u32(AT_REMOVE_DIR);
    });
    let response = session.serve(&unlink);
    assert_eq!(response_type(&response), RLERROR);
    assert_eq!(response_body(&response).u32(), Ok(Errno::NotEmpty.code()));
}

#[test]
fn partial_walk_binds_only_the_last_existing_component() {
    let mut filesystem = MemoryFileSystem::new();
    filesystem
        .create_dir("present", 0o755)
        .expect("seed directory");
    let mut session = Session::new(filesystem, "home").expect("session");
    negotiate_and_attach(&mut session);

    let walk = message(TWALK, 20, |writer| {
        writer.u32(1);
        writer.u32(2);
        writer.u16(2);
        writer.string("present").expect("name");
        writer.string("missing").expect("name");
    });
    let response = session.serve(&walk);
    assert_success(&response, TWALK);
    assert_eq!(response_body(&response).u16(), Ok(1));
    assert_eq!(
        session.fid(2).map(|fid| fid.path.as_str()),
        Ok("present")
    );
}

#[test]
fn unlink_marks_other_fids_to_the_removed_path_stale() {
    let mut filesystem = MemoryFileSystem::new();
    filesystem
        .create_file("victim", 0o644, true, false)
        .expect("seed file");
    let mut session = Session::new(filesystem, "home").expect("session");
    negotiate_and_attach(&mut session);

    for (tag, fid) in [(40, 2), (41, 3)] {
        let walk = message(TWALK, tag, |writer| {
            writer.u32(1);
            writer.u32(fid);
            writer.u16(1);
            writer.string("victim").expect("name");
        });
        assert_success(&session.serve(&walk), TWALK);
    }
    let unlink = message(TUNLINKAT, 42, |writer| {
        writer.u32(1);
        writer.string("victim").expect("name");
        writer.u32(0);
    });
    assert_success(&session.serve(&unlink), TUNLINKAT);

    let open_stale = message(TLOPEN, 43, |writer| {
        writer.u32(2);
        writer.u32(0);
    });
    let response = session.serve(&open_stale);
    assert_eq!(response_type(&response), RLERROR);
    assert_eq!(response_body(&response).u32(), Ok(Errno::Stale.code()));
    assert!(matches!(session.fid(3), Err(Errno::Stale)));
}

#[test]
fn qid_identity_table_is_bounded_across_path_churn() {
    let mut session = Session::new(MemoryFileSystem::new(), "workspace").expect("session");
    let metadata = metadata(NodeKind::File, 0, 0o644, 1);

    for index in 1..MAX_QID_PATHS {
        session
            .qid_for(&format!("synthetic-{index}"), &metadata)
            .expect("identity within cap");
    }
    assert_eq!(session.qid_paths.len(), MAX_QID_PATHS);
    assert_eq!(
        session.qid_for("one-too-many", &metadata),
        Err(Errno::NoSpace)
    );
}

#[test]
fn materialized_directory_is_rejected_above_the_backend_cap() {
    let mut filesystem = MemoryFileSystem::new();
    for index in 0..=MAX_DIRECTORY_ENTRIES {
        filesystem
            .create_file(&format!("entry-{index}"), 0o644, true, false)
            .expect("seed bounded directory");
    }
    let mut session = Session::new(filesystem, "home").expect("session");
    negotiate_and_attach(&mut session);
    let open_root = message(TLOPEN, 30, |writer| {
        writer.u32(1);
        writer.u32(0);
    });
    assert_success(&session.serve(&open_root), TLOPEN);
    let readdir = message(TREADDIR, 31, |writer| {
        writer.u32(1);
        writer.u64(0);
        writer.u32(4096);
    });
    let response = session.serve(&readdir);

    assert_eq!(response_type(&response), RLERROR);
    assert_eq!(response_body(&response).u32(), Ok(Errno::NoSpace.code()));
}

#[test]
fn answers_carry_their_size_and_tag() {
    let mut session = Session::new(MemoryFileSystem::new(), "home").expect("session");
    negotiate_and_attach(&mut session);
    for request in [
        message(TCLUNK, 77, |writer| writer.u32(1)),
        message(TCLUNK, 78, |writer| writer.u32(1)),
        message(250, 79, |_| {}),
        message(TREAD, 80, |writer| writer.u32(1)),
    ] {
        let response = session.serve(&request);
        assert_eq!(
            u32::from_le_bytes([response[0], response[1], response[2], response[3]]) as usize,
            response.len()
        );
        assert_eq!(response[5..7], request[5..7]);
    }
    assert!(matches!(session.fid(1), Err(Errno::BadFileDescriptor)));
}

#[test]
fn identities_are_stable_and_distinct() {
    let mut session = Session::new(MemoryFileSystem::new(), "home").expect("session");
    let metadata = metadata(NodeKind::File, 0, 0o644, 1);
    let first = session.qid_for("a", &metadata).expect("identity");
    let second = session.qid_for("b", &metadata).expect("identity");
    assert_ne!(first.path, second.path);
    assert_eq!(session.qid_for("a", &metadata).expect("identity").path, first.path);
}

#[test]
fn walking_up_stays_beneath_the_root() {
    let mut filesystem = MemoryFileSystem::new();
    filesystem.create_dir("d", 0o755).expect("seed directory");
    let mut session = Session::new(filesystem, "home").expect("session");
    negotiate_and_attach(&mut session);
    let walk = message(TWALK, 5, |writer| {
        writer.u32(1);
        writer.u32(2);
        writer.u16(4);
        writer.string("d").expect("name");
        writer.string("..").expect("name");
        writer.string("..").expect("name");
        writer.string("d").expect("name");
    });
    assert_success(&session.serve(&walk), TWALK);
    assert_eq!(session.fid(2).map(|fid| fid.path.as_str()), Ok("d"));
    let traverse = message(TWALK, 6, |writer| {
        writer.u32(1);
        writer.u32(3);
        writer.u16(1);
        writer.string("a/b").expect("name");
    });
    let response = session.serve(&traverse);
    assert_eq!(response_type(&response), RLERROR);
}

#[test]
fn listings_are_ordered_and_complete() {
    let mut filesystem = MemoryFileSystem::new();
    for name in ["zeta", "alpha", "Mid"] {
        filesystem
            .create_file(name, 0o644, true, false)
            .expect("seed file");
    }
    let mut session = Session::new(filesystem, "home").expect("session");
    negotiate_and_attach(&mut session);
    let open_root = message(TLOPEN, 30, |writer| {
        writer.u32(1);
        writer.u32(0);
    });
    assert_success(&session.serve(&open_root), TLOPEN);
    let readdir = message(TREADDIR, 31, |writer| {
        writer.u32(1);
        writer.u64(0);
        writer.u32(4096);
    });
    let response = session.serve(&readdir);
    assert_success(&response, TREADDIR);
    let mut body = response_body(&response);
    let count = body.u32().expect("byte count") as usize;
    let mut entries = Reader::new(body.bytes(count).expect("entries"));
    let mut names = Vec::new();
    while !entries.is_empty() {
        entries.bytes(13).expect("identity");
        entries.u64().expect("offset");
        entries.bytes(1).expect("kind");
        names.push(entries.string().expect("name").to_string());
    }
    names.retain(|name| name != "." && name != "..");
    assert_eq!(names, ["Mid", "alpha", "zeta"]);
}

#[test]
fn wire_numbers_and_texts_read_back() {
    let mut writer = Writer::plain();
    writer.u8(7);
    writer.u16(0x1234);
    writer.u32(0x1234_5678);
    writer.u64(0x1122_3344_5566_7788);
    writer.string("grüße").expect("text");
    let bytes = writer.into_bytes();
    let mut reader = Reader::new(&bytes);
    assert_eq!(reader.bytes(1), Ok([7].as_slice()));
    assert_eq!(reader.u16(), Ok(0x1234));
    assert_eq!(reader.u32(), Ok(0x1234_5678));
    assert_eq!(reader.u64(), Ok(0x1122_3344_5566_7788));
    assert_eq!(reader.string().expect("text"), "grüße");
    assert!(reader.finish().is_ok());
    assert!(Reader::new(&[1]).u16().is_err());
    assert!(Reader::new(&[2, 0, 0xff, 0xfe]).string().is_err());
}

#[test]
fn errno_messages_name_the_number() {
    assert_eq!(Errno::NotFound.message(), "9P operation failed with errno 2");
}

#[test]
fn only_normalized_paths_reach_the_filesystem() {
    let mut session = Session::new(MemoryFileSystem::new(), "home").expect("session");
    negotiate_and_attach(&mut session);
    let mkdir = |name: &str| {
        message(TMKDIR, 7, |writer| {
            writer.u32(1);
            writer.string(name).expect("name");
            writer.u32(0o755);
            writer.u32(0);
        })
    };
    for name in ["", ".", "..", "a/b", "/", "a\0", "a\n"] {
        let response = session.serve(&mkdir(name));
        assert_eq!(response_type(&response), RLERROR, "{name:?}");
        assert_eq!(session.filesystem().nodes.len(), 1);
    }
    assert_success(&session.serve(&mkdir("a")), TMKDIR);
    assert_success(&session.serve(&mkdir("b")), TMKDIR);
    let walk = message(TWALK, 8, |writer| {
        writer.u32(1);
        writer.u32(2);
        writer.u16(1);
        writer.string("a").expect("name");
    });
    assert_success(&session.serve(&walk), TWALK);
    let rename = message(TRENAMEAT, 9, |writer| {
        writer.u32(1);
        writer.string("a").expect("name");
        writer.u32(1);
        writer.string("c").expect("name");
    });
    assert_success(&session.serve(&rename), TRENAMEAT);
    assert_eq!(session.fid(2).map(|fid| fid.path.as_str()), Ok("c"));
    for path in session.filesystem().nodes.keys().filter(|path| !path.is_empty()) {
        for part in path.split('/') {
            assert!(!part.is_empty() && part != "." && part != "..", "{path:?}");
        }
    }
}

#[test]
fn following_the_cookies_gives_every_name_once() {
    let mut filesystem = MemoryFileSystem::new();
    let mut expected = Vec::new();
    for number in 0..40 {
        let name = format!("{}{number:02}", "n".repeat(60));
        filesystem.create_file(&name, 0o600, true, false).expect("create");
        expected.push(name);
    }
    let mut session = Session::new(filesystem, "home").expect("session");
    negotiate_and_attach(&mut session);
    let open = message(TLOPEN, 9, |writer| {
        writer.u32(1);
        writer.u32(0);
    });
    assert_success(&session.serve(&open), TLOPEN);

    let mut names = Vec::new();
    let mut cookie = 0;
    loop {
        let readdir = message(TREADDIR, 10, |writer| {
            writer.u32(1);
            writer.u64(cookie);
            writer.u32(279);
        });
        let response = session.serve(&readdir);
        assert_success(&response, TREADDIR);
        let mut body = response_body(&response);
        let length = body.u32().expect("length") as usize;
        assert!(length <= 279);
        if length == 0 {
            break;
        }
        let mut entries = Reader::new(body.bytes(length).expect("entries"));
        while !entries.is_empty() {
            entries.bytes(13).expect("identity");
            cookie = entries.u64().expect("cookie");
            entries.bytes(1).expect("kind");
            names.push(entries.string().expect("name").to_string());
            assert_eq!(cookie, names.len() as u64);
        }
    }
    assert_eq!(names, expected);
}

#[test]
fn every_answer_is_a_complete_message() {
    let mut session = Session::new(MemoryFileSystem::new(), "home").expect("session");
    let version = message(TVERSION, NOTAG, |writer| {
        writer.u32(MAX_MESSAGE_BYTES as u32);
        writer.string(VERSION).expect("version");
    });
    let mut unknown = vec![0_u8; 9];
    unknown[0] = 9;
    unknown[4] = 200;
    unknown[5..7].copy_from_slice(&[0x34, 0x12]);
    for (request, tag, kind) in [
        (Vec::new(), NOTAG, RLERROR),
        (vec![6, 0, 0, 0, TVERSION, 1], NOTAG, RLERROR),
        (unknown, 0x1234, RLERROR),
        (version, NOTAG, TVERSION + 1),
    ] {
        let response = session.serve(&request);
        assert!((7..=65536).contains(&response.len()));
        assert_eq!(response[..4], (response.len() as u32).to_le_bytes());
        assert_eq!(response[5..7], tag.to_le_bytes());
        assert_eq!(response[4], kind);
        if kind == RLERROR {
            assert_eq!(response.len(), 11);
        }
    }
}
