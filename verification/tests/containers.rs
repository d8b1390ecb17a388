use homemon::cgroup_info::{
    cgroup_path, read_line, scan_chunk, scan_text, ChunkScan, Resolution, SplitCharacter,
};
use homemon::command::{
    container_name, docker_inspect, output_text, pvesh_get, Error, Output,
};
use homemon::container_names::{Lookup, NameCache, NAMES_KEPT, NAME_RETRY_AFTER};
use homemon::structures::ProcessCGroupInfo;

fn id(letter: &str) -> String {
    letter.repeat(64)
}

fn in_lxc(vm_id: u32) -> ProcessCGroupInfo {
    ProcessCGroupInfo {
        lxc_vm_id: Some(vm_id),
        lxc_name: None,
        docker_container_id: None,
        docker_container_name: None,
    }
}

fn in_docker(vm_id: u32, container: &str) -> ProcessCGroupInfo {
    ProcessCGroupInfo { docker_container_id: Some(container.to_owned()), ..in_lxc(vm_id) }
}

fn wrote(stdout: &[u8]) -> Output {
    Output { success: true, status: 0, stdout: stdout.to_vec(), stderr: Vec::new() }
}

fn failed(stdout: &[u8], stderr: &[u8]) -> Output {
    Output { success: false, status: 256, stdout: stdout.to_vec(), stderr: stderr.to_vec() }
}

#[test]
fn line_names_an_lxc_container() {
    assert_eq!(read_line("0::/lxc/104/ns"), Ok(Some(in_lxc(104))));
    assert_eq!(read_line("0::/lxc/104"), Ok(Some(in_lxc(104))));
    assert_eq!(read_line("0::/lxc/+7/ns"), Ok(Some(in_lxc(7))));
}

#[test]
fn line_without_a_number_says_nothing() {
    assert_eq!(read_line(""), Ok(None));
    assert_eq!(read_line("0::/user.slice"), Ok(None));
    assert_eq!(read_line("0::/lxc/"), Ok(None));
    assert_eq!(read_line("0::/lxc/web/ns"), Ok(None));
    assert_eq!(read_line("0::/lxc/-1/ns"), Ok(None));
    assert_eq!(read_line("0::/lxc/4294967296/ns"), Ok(None));
    assert_eq!(read_line("0::/lxc/4294967295/ns"), Ok(Some(in_lxc(u32::MAX))));
    assert_eq!(read_line("0::/lxc/x/lxc/5/ns"), Ok(None));
}

#[test]
fn line_names_a_docker_container() {
    let a = id("a");
    let line = format!("0::/lxc/104/ns/system.slice/docker-{a}.scope");
    assert_eq!(read_line(&line), Ok(Some(in_docker(104, &a))));
    let line = format!("0::/lxc/104/docker/{a}");
    assert_eq!(read_line(&line), Ok(Some(in_docker(104, &a))));
}

#[test]
fn scope_marker_comes_before_directory_marker() {
    let a = id("a");
    let b = id("b");
    let line = format!("0::/lxc/1/docker/{a}/docker-{b}.scope");
    assert_eq!(read_line(&line), Ok(Some(in_docker(1, &b))));
    // A marker with too little after it hides the other one.
    let line = format!("0::/lxc/1/docker/{a}/docker-short");
    assert_eq!(read_line(&line), Ok(Some(in_lxc(1))));
}

#[test]
fn docker_outside_lxc_says_nothing() {
    let a = id("a");
    assert_eq!(read_line(&format!("0::/system.slice/docker-{a}.scope")), Ok(None));
}

#[test]
fn container_id_may_not_end_inside_a_character() {
    let line = format!("0::/lxc/1/docker-{}\u{e9}", "a".repeat(63));
    assert_eq!(read_line(&line), Err(SplitCharacter));
    let line = format!("0::/lxc/1/docker-{}\u{e9}", "a".repeat(62));
    let container = format!("{}\u{e9}", "a".repeat(62));
    assert_eq!(read_line(&line), Ok(Some(in_docker(1, &container))));
}

#[test]
fn first_line_that_says_something_counts() {
    let text = "12:cpu:/user\r\n0::/lxc/5/ns\r\n0::/lxc/6/ns\n";
    assert_eq!(scan_text(text), Ok(Some(in_lxc(5))));
    assert_eq!(scan_text("12:cpu:/user\n0::/lxc/6"), Ok(Some(in_lxc(6))));
    assert_eq!(scan_text("\n\n"), Ok(None));
}

#[test]
fn chunks_are_read_up_to_their_last_line() {
    assert_eq!(scan_chunk(b""), Ok(ChunkScan::Found(ProcessCGroupInfo::default())));
    assert_eq!(scan_chunk(b"0::/\n0::/lxc/5"), Ok(ChunkScan::Consume(5)));
    assert_eq!(scan_chunk(b"0::/\n0::/lxc/5\n"), Ok(ChunkScan::Found(in_lxc(5))));
}

#[test]
fn bytes_that_are_no_text_are_replaced() {
    let mut chunk = b"0::/\xff/lxc/9/ns/docker-".to_vec();
    chunk.extend(std::iter::repeat(b'c').take(61));
    chunk.extend(b"\xff\n");
    // The byte that is no text takes three bytes as a replacement character.
    let container = format!("{}\u{fffd}", "c".repeat(61));
    assert_eq!(scan_chunk(&chunk), Ok(ChunkScan::Found(in_docker(9, &container))));
}

#[test]
fn pieces_say_what_the_whole_says() {
    let whole = "0::/a\n0::/lxc/3/ns\n0::/lxc/4/ns\n";
    assert_eq!(scan_text(whole), Ok(Some(in_lxc(3))));
    assert_eq!(scan_text("0::/a\n"), Ok(None));
    assert_eq!(scan_text("0::/lxc/3/ns\n0::/lxc/4/ns\n"), Ok(Some(in_lxc(3))));
}

#[test]
fn path_of_the_control_group_file() {
    assert_eq!(cgroup_path(0), "/proc/0/cgroup");
    assert_eq!(cgroup_path(u32::MAX), "/proc/4294967295/cgroup");
}

#[test]
fn docker_is_asked_inside_the_lxc_container() {
    let command = docker_inspect(Some(104), "abc");
    assert_eq!(command.program, "pct");
    assert_eq!(
        command.args,
        vec!["exec", "104", "--", "docker", "inspect", "--format", "{{.Name}}", "abc"]
    );
    let command = docker_inspect(None, "abc");
    assert_eq!(command.program, "docker");
    assert_eq!(command.args, vec!["inspect", "--format", "{{.Name}}", "abc"]);
}

#[test]
fn node_is_asked_through_the_shell() {
    let command = pvesh_get("localhost", "lxc");
    assert_eq!(command.program, "pvesh");
    assert_eq!(command.args, vec!["get", "/nodes/localhost/lxc", "--output-format", "json"]);
}

#[test]
fn name_stands_between_slash_and_line_feed() {
    assert_eq!(container_name(wrote(b"/web\n")).unwrap(), "web");
    assert_eq!(container_name(wrote(b"web")).unwrap(), "web");
    assert_eq!(container_name(wrote(b"//web\n\n")).unwrap(), "/web\n");
    assert_eq!(container_name(wrote(b"/\n")).unwrap(), "");
    assert_eq!(container_name(wrote(b"")).unwrap(), "");
}

#[test]
fn name_that_is_no_text_is_an_error() {
    assert!(matches!(container_name(wrote(b"/\xff\n")), Err(Error::InvalidString { .. })));
}

#[test]
fn failed_program_is_an_error_with_all_it_wrote() {
    match container_name(failed(b"out", b"no \xff such")) {
        Err(Error::Status { stdout, stderr, status }) => {
            assert_eq!(stdout, "out");
            assert_eq!(stderr, "no \u{fffd} such");
            assert_eq!(status, 256);
        }
        other => panic!("{other:?}"),
    }
    assert!(matches!(output_text(failed(b"", b"")), Err(Error::Status { status: 256, .. })));
}

#[test]
fn output_is_text_or_an_error() {
    assert_eq!(output_text(wrote("[\u{e9}]".as_bytes())).unwrap(), "[\u{e9}]");
    assert!(matches!(output_text(wrote(b"\xc3")), Err(Error::InvalidString { .. })));
}

#[test]
fn learned_name_is_known() {
    let mut names = NameCache::new();
    assert_eq!(names.look_up("a", 0), Lookup::Ask);
    assert_eq!(names.answered("a", Ok("web".to_owned()), 0).unwrap(), "web");
    assert_eq!(names.look_up("a", u64::MAX), Lookup::Known("web".to_owned()));
    assert_eq!(names.look_up("b", 0), Lookup::Ask);
}

#[test]
fn failed_container_is_left_alone_for_a_minute() {
    let mut names = NameCache::new();
    let error = Error::Io { not_found: false, message: "refused".to_owned() };
    let answer = names.answered("a", Err(error), 1000);
    assert!(matches!(answer, Err(Error::Io { not_found: false, .. })));
    assert_eq!(names.look_up("a", 1000), Lookup::Withheld);
    assert_eq!(names.look_up("a", 999 + NAME_RETRY_AFTER), Lookup::Withheld);
    assert_eq!(names.look_up("a", 1000 + NAME_RETRY_AFTER), Lookup::Ask);
    assert_eq!(NAME_RETRY_AFTER, 60_000_000_000);
}

#[test]
fn longest_unused_container_makes_room() {
    let mut names = NameCache::new();
    for i in 0..NAMES_KEPT {
        names.answered(&i.to_string(), Ok(format!("name {i}")), 0).unwrap();
    }
    // The first is used again, so the second is now the one unused longest.
    assert_eq!(names.look_up("0", 0), Lookup::Known("name 0".to_owned()));
    names.answered("new", Ok("newcomer".to_owned()), 0).unwrap();
    assert_eq!(names.look_up("0", 0), Lookup::Known("name 0".to_owned()));
    assert_eq!(names.look_up("1", 0), Lookup::Ask);
    assert_eq!(names.look_up("2", 0), Lookup::Known("name 2".to_owned()));
    // Learning of one that is there already costs no other its place.
    names.answered("new", Ok("renamed".to_owned()), 0).unwrap();
    assert_eq!(names.look_up("3", 0), Lookup::Known("name 3".to_owned()));
    assert_eq!(names.look_up("new", 0), Lookup::Known("renamed".to_owned()));
}

#[test]
fn known_container_is_not_asked_again_while_few_others_are() {
    let learn = |others: usize| {
        let mut names = NameCache::new();
        names.answered("a", Ok("web".to_owned()), 0).unwrap();
        for i in 0..others {
            assert_eq!(names.look_up(&i.to_string(), 5), Lookup::Ask);
            names.answered(&i.to_string(), Ok(format!("name {i}")), 5).unwrap();
        }
        names.look_up("a", 9)
    };
    assert_eq!(learn(NAMES_KEPT - 1), Lookup::Known("web".to_owned()));
    assert_eq!(learn(NAMES_KEPT), Lookup::Ask);
    // One other is one other, however often it is looked up.
    let mut names = NameCache::new();
    names.answered("a", Ok("web".to_owned()), 0).unwrap();
    for _ in 0..3 * NAMES_KEPT {
        names.look_up("b", 5);
        names.answered("b", Ok("other".to_owned()), 5).unwrap();
    }
    assert_eq!(names.look_up("a", 9), Lookup::Known("web".to_owned()));
}

#[test]
fn failed_container_is_left_alone_while_others_are_looked_up() {
    let mut names = NameCache::new();
    let error = Error::Io { not_found: false, message: "refused".to_owned() };
    assert!(names.answered("a", Err(error), 1000).is_err());
    for i in 0..NAMES_KEPT - 1 {
        names.look_up(&i.to_string(), 2000);
        names.answered(&i.to_string(), Ok(format!("name {i}")), 2000).unwrap();
        assert_eq!(names.look_up("a", 999 + NAME_RETRY_AFTER), Lookup::Withheld);
    }
    assert_eq!(names.look_up("a", 1000 + NAME_RETRY_AFTER), Lookup::Ask);
}

#[test]
fn process_outside_docker_needs_no_name() {
    let mut names = NameCache::new();
    assert_eq!(
        ProcessCGroupInfo::from_pid(in_lxc(3), &mut names, 0),
        Resolution::Done(in_lxc(3))
    );
}

#[test]
fn container_name_is_asked_for_once() {
    let mut names = NameCache::new();
    let a = id("a");
    let info = match ProcessCGroupInfo::from_pid(in_docker(3, &a), &mut names, 0) {
        Resolution::Ask { info, command } => {
            assert_eq!(command, docker_inspect(Some(3), &a));
            info
        }
        other => panic!("{other:?}"),
    };
    let (info, reason) = ProcessCGroupInfo::answered(info, Ok(wrote(b"/web\n")), &mut names, 0);
    assert!(reason.is_none());
    assert_eq!(info.docker_container_name, Some("web".to_owned()));
    let again = ProcessCGroupInfo::from_pid(in_docker(3, &a), &mut names, 1);
    assert_eq!(again, Resolution::Done(info));
}

#[test]
fn unnamed_container_is_shown_all_the_same() {
    let mut names = NameCache::new();
    let a = id("a");
    let (info, reason) =
        ProcessCGroupInfo::answered(in_docker(3, &a), Ok(failed(b"", b"")), &mut names, 5);
    assert!(matches!(reason, Some(Error::Status { status: 256, .. })));
    assert_eq!(info, in_docker(3, &a));
    let again = ProcessCGroupInfo::from_pid(in_docker(3, &a), &mut names, 6);
    assert_eq!(again, Resolution::Done(in_docker(3, &a)));
    let later = ProcessCGroupInfo::from_pid(in_docker(3, &a), &mut names, 5 + NAME_RETRY_AFTER);
    assert!(matches!(later, Resolution::Ask { .. }));
}
