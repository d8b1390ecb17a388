//! Which container a process sits in, and what that container is called.

use vstd::prelude::*;
use vstd::slice::slice_subrange;
use vstd::string::*;
use vstd::utf8::*;

use crate::command::{
    bare_name, container_name, docker_inspect, docker_inspect_words, is_failure_of,
    law_name_is_found_in_what_docker_writes, CommandLine, Error, Output,
};
use crate::container_names::{
    entries_learned, entries_used, entry_of, worth_asking, CachedNameView, Lookup, NameCache,
    NAME_RETRY_AFTER,
};
use crate::structures::{optional_text, ProcessCGroupInfo};
use crate::text::{
    decimal, decimal_text, find_bytes, first_occurrence, is_first_occurrence,
    lemma_boundary_after_ascii, lemma_first_occurrence, lemma_lines_of_two, lines_of, lossy_text,
    occurs_at, read_unsigned, text_from_lossy, unsigned_of, without_return,
};

verus! {

/// How many bytes a docker container id has.
pub const CONTAINER_ID_LEN: usize = 64;

/// `/lxc/`, which stands before a container's number in a control group's path.
pub open spec fn lxc_marker() -> Seq<u8> {
    seq![47u8, 108, 120, 99, 47]
}

/// `docker-`, which stands before a container id under the systemd driver.
pub open spec fn docker_scope_marker() -> Seq<u8> {
    seq![100u8, 111, 99, 107, 101, 114, 45]
}

/// `/docker/`, which stands before a container id under the older cgroupfs driver.
pub open spec fn docker_dir_marker() -> Seq<u8> {
    seq![47u8, 100, 111, 99, 107, 101, 114, 47]
}

/// The number of the LXC container that a control group's path names: what stands between the
/// first `/lxc/` and the next slash, if it is a number.
pub open spec fn lxc_id_of(line: Seq<u8>) -> Option<nat> {
    match first_occurrence(line, lxc_marker()) {
        Some(at) => {
            let rest = line.skip(at + 5);
            let id = match first_occurrence(rest, seq![47u8]) {
                Some(slash) => rest.take(slash),
                None => rest,
            };
            unsigned_of(id, u32::MAX as nat)
        },
        None => None,
    }
}

/// Where a docker container id begins in a control group's path: after the first `docker-`, and
/// only where there is none, after the first `/docker/`.
pub open spec fn container_start(line: Seq<u8>) -> Option<int> {
    match first_occurrence(line, docker_scope_marker()) {
        Some(at) => Some(at + 7),
        None => match first_occurrence(line, docker_dir_marker()) {
            Some(at) => Some(at + 8),
            None => None,
        },
    }
}

/// The docker container id that a control group's path names, if the path is long enough to hold
/// one after the marker.
pub open spec fn container_bytes(line: Seq<u8>) -> Option<Seq<u8>> {
    match container_start(line) {
        Some(start) if start + 64 <= line.len() => Some(line.subrange(start, start + 64)),
        _ => None,
    }
}

/// The container id that a line names ends between two characters.
pub open spec fn container_ends_well(line: Seq<u8>) -> bool {
    match container_start(line) {
        Some(start) if start + 64 <= line.len() => is_char_boundary(line, start + 64),
        _ => true,
    }
}

/// What one line of a control group file says of the container: `info` is the number of the LXC
/// container and the docker container id, and no names.
pub open spec fn line_says(line: Seq<u8>, info: ProcessCGroupInfo) -> bool {
    &&& lxc_id_of(line) is Some
    &&& info.lxc_vm_id is Some
    &&& info.lxc_vm_id->0 == lxc_id_of(line)->0
    &&& info.lxc_name is None
    &&& info.docker_container_name is None
    &&& match container_bytes(line) {
        Some(id) => info.docker_container_id is Some && encode_utf8(info.docker_container_id->0@)
            == id,
        None => info.docker_container_id is None,
    }
}

/// The first line that names an LXC container, if any does.
pub open spec fn first_lxc_line(lines: Seq<Seq<u8>>) -> Option<Seq<u8>>
    decreases lines.len(),
{
    if lines.len() == 0 {
        None
    } else if lxc_id_of(lines[0]) is Some {
        Some(lines[0])
    } else {
        first_lxc_line(lines.skip(1))
    }
}

/// A docker container id in a control group file does not end between two characters.
#[derive(Debug, Clone, Copy, PartialEq, Eq, Structural)]
pub struct SplitCharacter;

fn lxc_id(line: &[u8]) -> (id: Option<u32>)
    ensures
        match id {
            Some(n) => lxc_id_of(line@) == Some(n as nat),
            None => lxc_id_of(line@) is None,
        },
{
    let size: usize = line.len();
    let marker: [u8; 5] = [47, 108, 120, 99, 47];
    assert(marker@ =~= lxc_marker());
    match find_bytes(line, &marker) {
        Some(at) => {
            assert(occurs_at(line@, lxc_marker(), at as int));
            let rest: &[u8] = slice_subrange(line, at + 5, line.len());
            assert(rest@ =~= line@.skip(at + 5));
            let slash: [u8; 1] = [47];
            assert(slash@ =~= seq![47u8]);
            let id: &[u8] = match find_bytes(rest, &slash) {
                Some(end) => {
                    assert(occurs_at(rest@, slash@, end as int));
                    let id: &[u8] = slice_subrange(rest, 0, end);
                    assert(id@ =~= rest@.take(end as int));
                    id
                },
                None => rest,
            };
            match read_unsigned(id, u32::MAX as u64) {
                Some(n) => Some(n as u32),
                None => None,
            }
        },
        None => None,
    }
}

fn container_begins(line: &[u8]) -> (start: Option<usize>)
    ensures
        match start {
            Some(n) => container_start(line@) == Some(n as int) && 0 < n <= line@.len() && line@[n
                - 1] < 128,
            None => container_start(line@) is None,
        },
{
    let size: usize = line.len();
    let scope: [u8; 7] = [100, 111, 99, 107, 101, 114, 45];
    assert(scope@ =~= docker_scope_marker());
    if let Some(at) = find_bytes(line, &scope) {
        assert(occurs_at(line@, scope@, at as int));
        assert(line@[at + 6] == line@.subrange(at as int, at + 7)[6]);
        return Some(at + 7);
    }
    let dir: [u8; 8] = [47, 100, 111, 99, 107, 101, 114, 47];
    assert(dir@ =~= docker_dir_marker());
    if let Some(at) = find_bytes(line, &dir) {
        assert(occurs_at(line@, dir@, at as int));
        assert(line@[at + 7] == line@.subrange(at as int, at + 8)[7]);
        return Some(at + 8);
    }
    None
}

/// Reads one line of a control group file.
///
/// A line that names no LXC container says nothing.
pub fn read_line(line: &str) -> (said: Result<Option<ProcessCGroupInfo>, SplitCharacter>)
    ensures
        match said {
            Ok(Some(info)) => line_says(line.spec_bytes(), info) && container_ends_well(
                line.spec_bytes(),
            ),
            Ok(None) => lxc_id_of(line.spec_bytes()) is None,
            Err(_) => lxc_id_of(line.spec_bytes()) is Some && !container_ends_well(
                line.spec_bytes(),
            ),
        },
{
    let bytes: &[u8] = line.as_bytes();
    let vm_id: u32 = match lxc_id(bytes) {
        Some(id) => id,
        None => return Ok(None),
    };
    let mut info = ProcessCGroupInfo {
        lxc_vm_id: Some(vm_id),
        lxc_name: None,
        docker_container_id: None,
        docker_container_name: None,
    };
    if let Some(start) = container_begins(bytes) {
        if bytes.len() - start >= CONTAINER_ID_LEN {
            proof {
                encode_utf8_valid_utf8(line@);
                lemma_boundary_after_ascii(line.spec_bytes(), start - 1);
            }
            if !line.is_char_boundary(start + CONTAINER_ID_LEN) {
                return Err(SplitCharacter);
            }
            let (before, _) = line.split_at(start + CONTAINER_ID_LEN);
            proof {
                let whole = line.spec_bytes();
                encode_utf8_valid_utf8(before@);
                lemma_boundary_after_ascii(before.spec_bytes(), start - 1);
            }
            let (_, id) = before.split_at(start);
            assert(id.spec_bytes() =~= line.spec_bytes().subrange(start as int, start + 64));
            info.docker_container_id = Some(id.to_owned());
        }
    }
    Ok(Some(info))
}

/// Reads a control group file's text up to the first line that names an LXC container.
pub fn scan_text(text: &str) -> (said: Result<Option<ProcessCGroupInfo>, SplitCharacter>)
    ensures
        match first_lxc_line(lines_of(text.spec_bytes())) {
            Some(line) => match said {
                Ok(Some(info)) => line_says(line, info) && container_ends_well(line),
                Ok(None) => false,
                Err(_) => !container_ends_well(line),
            },
            None => said == Ok::<Option<ProcessCGroupInfo>, SplitCharacter>(None),
        },
{
    let newline: [u8; 1] = [10];
    assert(newline@ =~= seq![10u8]);
    let mut rest: &str = text;
    loop
        invariant
            newline@ == seq![10u8],
            first_lxc_line(lines_of(rest.spec_bytes())) == first_lxc_line(
                lines_of(text.spec_bytes()),
            ),
        decreases rest.spec_bytes().len(),
    {
        let ghost bytes = rest.spec_bytes();
        proof {
            encode_utf8_valid_utf8(rest@);
        }
        if rest.as_bytes().len() == 0 {
            assert(lines_of(bytes).len() == 0);
            return Ok(None);
        }
        match find_bytes(rest.as_bytes(), &newline) {
            Some(at) => {
                assert(occurs_at(bytes, newline@, at as int));
                assert(bytes[at as int] == bytes.subrange(at as int, at + 1)[0]);
                proof {
                    lemma_boundary_after_ascii(bytes, at as int);
                }
                let (ended, _) = rest.split_at(at);
                let (_, next) = rest.split_at(at + 1);
                let line: &str = strip_return(ended);
                let ghost lines = lines_of(bytes);
                assert(ended.spec_bytes() =~= bytes.take(at as int));
                assert(next.spec_bytes() =~= bytes.skip(at + 1));
                assert(lines == seq![line.spec_bytes()] + lines_of(next.spec_bytes()));
                assert(lines[0] == line.spec_bytes());
                assert(lines.skip(1) =~= lines_of(next.spec_bytes()));
                match read_line(line) {
                    Ok(None) => {},
                    said => return said,
                }
                rest = next;
            },
            None => {
                let ghost lines = lines_of(bytes);
                assert(lines == seq![bytes]);
                assert(first_lxc_line(lines.skip(1)) is None);
                return read_line(rest);
            },
        }
    }
}

fn strip_return(line: &str) -> (stripped: &str)
    ensures
        stripped.spec_bytes() == without_return(line.spec_bytes()),
{
    let bytes: &[u8] = line.as_bytes();
    if bytes.len() > 0 && bytes[bytes.len() - 1] == 13 {
        proof {
            encode_utf8_valid_utf8(line@);
            lemma_boundary_after_ascii(line.spec_bytes(), line.spec_bytes().len() - 1);
        }
        let (stripped, _) = line.split_at(bytes.len() - 1);
        assert(stripped.spec_bytes() =~= line.spec_bytes().drop_last());
        stripped
    } else {
        line
    }
}

/// The file in which the kernel says which control groups a process is in.
pub fn cgroup_path(pid: u32) -> (path: String)
    ensures
        path@ == "/proc/"@ + decimal(pid as nat) + "/cgroup"@,
{
    let mut path = "/proc/".to_owned();
    path.append(decimal_text(pid as u64).as_str());
    path.append("/cgroup");
    path
}

/// How much of a chunk is complete lines: everything up to its last line feed.
pub open spec fn complete_len(chunk: Seq<u8>) -> nat
    decreases chunk.len(),
{
    if chunk.len() == 0 || chunk.last() == 10 {
        chunk.len()
    } else {
        complete_len(chunk.drop_last())
    }
}

/// The bytes of the text that a chunk's complete lines are taken for.
pub open spec fn chunk_text(chunk: Seq<u8>) -> Seq<u8> {
    encode_utf8(lossy_text(chunk.take(complete_len(chunk) as int)))
}

/// What reading one chunk of a control group file comes to.
#[derive(Debug, PartialEq)]
pub enum ChunkScan {
    /// A line named an LXC container, and this is what it said.
    Found(ProcessCGroupInfo),
    /// No line did. This many bytes have been read, and the next chunk begins after them.
    Consume(usize),
}

fn complete_part_len(chunk: &[u8]) -> (len: usize)
    ensures
        len == complete_len(chunk@),
        len <= chunk@.len(),
{
    let mut len: usize = chunk.len();
    assert(chunk@.take(len as int) =~= chunk@);
    while len > 0 && chunk[len - 1] != 10
        invariant
            len <= chunk@.len(),
            complete_len(chunk@.take(len as int)) == complete_len(chunk@),
        decreases len,
    {
        assert(chunk@.take(len as int).drop_last() =~= chunk@.take(len - 1));
        len -= 1;
    }
    assert(len > 0 ==> chunk@.take(len as int).last() == 10);
    len
}

/// Reads one chunk of a control group file, as far as it holds complete lines.
///
/// The empty chunk is the end of the file. Where it comes before any line that names an LXC
/// container, the process is in none.
pub fn scan_chunk(chunk: &[u8]) -> (scan: Result<ChunkScan, SplitCharacter>)
    requires
        chunk@.len() > 0 ==> complete_len(chunk@) > 0,
    ensures
        chunk@.len() == 0 ==> scan == Ok::<ChunkScan, SplitCharacter>(
            ChunkScan::Found(ProcessCGroupInfo::nowhere()),
        ),
        chunk@.len() > 0 ==> match first_lxc_line(lines_of(chunk_text(chunk@))) {
            Some(line) => match scan {
                Ok(ChunkScan::Found(info)) => line_says(line, info) && container_ends_well(line),
                Ok(ChunkScan::Consume(_)) => false,
                Err(_) => !container_ends_well(line),
            },
            None => match scan {
                Ok(ChunkScan::Consume(read)) => 0 < read <= chunk@.len() && read == complete_len(
                    chunk@,
                ),
                _ => false,
            },
        },
        ({
            let complete = chunk@.take(complete_len(chunk@) as int);
            valid_utf8(complete) ==> chunk_text(chunk@) == complete
        }),
{
    let len: usize = complete_part_len(chunk);
    let complete: &[u8] = slice_subrange(chunk, 0, len);
    assert(complete@ =~= chunk@.take(len as int));
    let text = text_from_lossy(complete);
    proof {
        if valid_utf8(complete@) {
            decode_utf8_encode_utf8(complete@);
        }
    }
    if chunk.len() == 0 {
        return Ok(ChunkScan::Found(ProcessCGroupInfo::default()));
    }
    match scan_text(text.as_str()) {
        Ok(Some(info)) => Ok(ChunkScan::Found(info)),
        Ok(None) => Ok(ChunkScan::Consume(len)),
        Err(split) => Err(split),
    }
}

/// What is left to do for a process once its control group file has been read.
#[derive(Debug, PartialEq)]
pub enum Resolution {
    /// Nothing: this is what is known.
    Done(ProcessCGroupInfo),
    /// Docker is to be asked for the container's name.
    Ask { info: ProcessCGroupInfo, command: CommandLine },
}

/// What is known of a process with the docker container's name put in.
pub open spec fn with_name(
    info: ProcessCGroupInfo,
    read: ProcessCGroupInfo,
    name: Option<Seq<char>>,
) -> bool {
    &&& info.lxc_vm_id == read.lxc_vm_id
    &&& info.lxc_name == read.lxc_name
    &&& info.docker_container_id == read.docker_container_id
    &&& optional_text(info.docker_container_name) == name
}

impl ProcessCGroupInfo {
    /// Puts a docker container's name to what a process's control group file said, at the time
    /// `now`, as far as it is known without asking.
    ///
    /// A process that is in no docker container has no name to look for.
    pub fn from_pid(read: ProcessCGroupInfo, names: &mut NameCache, now: u64) -> (next: Resolution)
        requires
            old(names).wf(),
        ensures
            final(names).wf(),
            match read.docker_container_id {
                None => {
                    &&& next == Resolution::Done(read)
                    &&& final(names).entries() == old(names).entries()
                },
                Some(id) => {
                    let known = entry_of(old(names).entries(), id@);
                    &&& final(names).entries() == entries_used(old(names).entries(), id@)
                    &&& match next {
                        Resolution::Done(info) => {
                            &&& !worth_asking(known, now)
                            &&& with_name(
                                info,
                                read,
                                match known {
                                    Some(CachedNameView::Known(name)) => Some(name),
                                    _ => None,
                                },
                            )
                        },
                        Resolution::Ask { info, command } => {
                            &&& worth_asking(known, now)
                            &&& info == read
                            &&& command.words() == docker_inspect_words(read.lxc_vm_id, id@)
                        },
                    }
                },
            },
    {
        let lookup = match &read.docker_container_id {
            None => {
                return Resolution::Done(read);
            },
            Some(id) => {
                let lookup = names.look_up(id.as_str(), now);
                if let Lookup::Ask = lookup {
                    let command = docker_inspect(read.lxc_vm_id, id.as_str());
                    return Resolution::Ask { info: read, command };
                }
                lookup
            },
        };
        let mut info = read;
        info.docker_container_name = match lookup {
            Lookup::Known(name) => Some(name),
            _ => None,
        };
        Resolution::Done(info)
    }

    /// Takes what came of asking docker, at the time `now`, and gives what is known of the process
    /// with the reason why the container has no name, if it has none.
    ///
    /// A name that cannot be had is worth carrying on without: the container id, the LXC container
    /// it sits in and the process itself are all still worth showing.
    pub fn answered(
        read: ProcessCGroupInfo,
        output: Result<Output, Error>,
        names: &mut NameCache,
        now: u64,
    ) -> (known: (ProcessCGroupInfo, Option<Error>))
        requires
            old(names).wf(),
            now <= u64::MAX - NAME_RETRY_AFTER,
            read.docker_container_id is Some,
        ensures
            final(names).wf(),
            ({
                let name = named_in(output);
                let id = read.docker_container_id->0@;
                &&& with_name(known.0, read, name)
                &&& final(names).entries() == entries_learned(
                    old(names).entries(),
                    id,
                    match name {
                        Some(text) => CachedNameView::Known(text),
                        None => CachedNameView::Failed { until: (now + NAME_RETRY_AFTER) as u64 },
                    },
                )
                &&& known.1 is None <==> name is Some
                &&& known.1 matches Some(reason) ==> is_reason(reason, output)
            }),
    {
        let answer = match output {
            Ok(output) => container_name(output),
            Err(error) => Err(error),
        };
        let mut info = read;
        let mut reason: Option<Error> = None;
        if let Some(id) = &info.docker_container_id {
            info.docker_container_name = match names.answered(id.as_str(), answer, now) {
                Ok(name) => Some(name),
                Err(error) => {
                    reason = Some(error);
                    None
                },
            };
        }
        (info, reason)
    }
}

/// Why docker gave no name: it did not run, it failed, or what it wrote is not text.
pub open spec fn is_reason(reason: Error, output: Result<Output, Error>) -> bool {
    match output {
        Err(error) => reason == error,
        Ok(output) => if output.success {
            reason is InvalidString
        } else {
            is_failure_of(reason, output)
        },
    }
}

/// The container's name in what came of asking docker: there is one where docker ran and
/// succeeded and wrote text.
pub open spec fn named_in(output: Result<Output, Error>) -> Option<Seq<char>> {
    match output {
        Ok(output) => if output.success && valid_utf8(bare_name(output.stdout@)) {
            Some(decode_utf8(bare_name(output.stdout@)))
        } else {
            None
        },
        Err(_) => None,
    }
}

/// The first line that names an LXC container in two pieces of a file, the first of which ends
/// with a line, is the first in the first piece, and if there is none, the first in the second.
proof fn lemma_first_lxc_line_of_two(one: Seq<Seq<u8>>, two: Seq<Seq<u8>>)
    ensures
        first_lxc_line(one + two) == (match first_lxc_line(one) {
            Some(line) => Some(line),
            None => first_lxc_line(two),
        }),
    decreases one.len(),
{
    if one.len() == 0 {
        assert(one + two =~= two);
    } else {
        assert((one + two).skip(1) =~= one.skip(1) + two);
        lemma_first_lxc_line_of_two(one.skip(1), two);
    }
}

/// A control group file may be read in pieces: as long as each piece ends with a line, going on
/// to the next only where the last said nothing finds what reading the whole finds.
pub proof fn law_reading_in_pieces(piece: Seq<u8>, rest: Seq<u8>)
    requires
        piece.len() > 0,
        piece.last() == 10,
    ensures
        lines_of(piece + rest) == lines_of(piece) + lines_of(rest),
        first_lxc_line(lines_of(piece + rest)) == (match first_lxc_line(lines_of(piece)) {
            Some(line) => Some(line),
            None => first_lxc_line(lines_of(rest)),
        }),
{
    lemma_lines_of_two(piece, rest);
    lemma_first_lxc_line_of_two(lines_of(piece), lines_of(rest));
}

/// The number of the LXC container is what stands after the first `/lxc/`, up to the next slash or
/// the end of the line, where that is a number. A line without `/lxc/` names none.
pub proof fn law_lxc_number_stands_after_its_marker(line: Seq<u8>, at: int, end: int)
    ensures
        (forall|i: int| !occurs_at(line, seq![47u8, 108, 120, 99, 47], i)) ==> lxc_id_of(
            line,
        ) is None,
        is_first_occurrence(line, seq![47u8, 108, 120, 99, 47], at) && at + 5 <= end <= line.len()
            && (forall|i: int| at + 5 <= i < end ==> #[trigger] line[i] != 47) && (end == line.len()
            || line[end] == 47) ==> lxc_id_of(line) == unsigned_of(
            line.subrange(at + 5, end),
            0xffff_ffff,
        ),
{
    let marker = seq![47u8, 108, 120, 99, 47];
    if forall|i: int| !occurs_at(line, marker, i) {
        assert(first_occurrence(line, marker) is None);
    }
    if is_first_occurrence(line, marker, at) && at + 5 <= end <= line.len() && (forall|i: int|
        at + 5 <= i < end ==> #[trigger] line[i] != 47) && (end == line.len() || line[end] == 47) {
        lemma_first_occurrence(line, marker, at);
        let rest = line.skip(at + 5);
        let slash = seq![47u8];
        let len = end - (at + 5);
        assert forall|i: int| 0 <= i < len implies !occurs_at(rest, slash, i) by {
            if occurs_at(rest, slash, i) {
                assert(rest.subrange(i, i + 1)[0] == line[at + 5 + i]);
            }
        }
        if end < line.len() {
            assert(rest.subrange(len, len + 1) =~= slash);
            assert(is_first_occurrence(rest, slash, len));
            lemma_first_occurrence(rest, slash, len);
            assert(rest.take(len) =~= line.subrange(at + 5, end));
        } else {
            assert(first_occurrence(rest, slash) is None);
            assert(rest =~= line.subrange(at + 5, end));
        }
    }
}

/// The docker container's id is the 64 bytes after the first `docker-`, or, where there is none,
/// after the first `/docker/`. Where fewer are left, and where the line has neither, there is none.
/// An id that is there is taken where it ends between two characters.
pub proof fn law_container_id_stands_after_its_marker(line: Seq<u8>, at: int)
    ensures
        ({
            let scope = seq![100u8, 111, 99, 107, 101, 114, 45];
            let dir = seq![47u8, 100, 111, 99, 107, 101, 114, 47];
            let no_scope = forall|i: int| !occurs_at(line, scope, i);
            let no_dir = forall|i: int| !occurs_at(line, dir, i);
            &&& is_first_occurrence(line, scope, at) ==> container_bytes(line) == (if at + 71
                <= line.len() {
                Some(line.subrange(at + 7, at + 71))
            } else {
                None
            })
            &&& no_scope && is_first_occurrence(line, dir, at) ==> container_bytes(line) == (if at
                + 72 <= line.len() {
                Some(line.subrange(at + 8, at + 72))
            } else {
                None
            })
            &&& no_scope && no_dir ==> container_bytes(line) is None
            &&& is_first_occurrence(line, scope, at) ==> (container_ends_well(line) <==> (at + 71
                <= line.len() ==> is_char_boundary(line, at + 71)))
            &&& no_scope && is_first_occurrence(line, dir, at) ==> (container_ends_well(line) <==> (
            at + 72 <= line.len() ==> is_char_boundary(line, at + 72)))
            &&& no_scope && no_dir ==> container_ends_well(line)
        }),
{
    let scope = seq![100u8, 111, 99, 107, 101, 114, 45];
    let dir = seq![47u8, 100, 111, 99, 107, 101, 114, 47];
    if is_first_occurrence(line, scope, at) {
        lemma_first_occurrence(line, scope, at);
    } else if forall|i: int| !occurs_at(line, scope, i) {
        assert(first_occurrence(line, scope) is None);
        if is_first_occurrence(line, dir, at) {
            lemma_first_occurrence(line, dir, at);
        } else if forall|i: int| !occurs_at(line, dir, i) {
            assert(first_occurrence(line, dir) is None);
        }
    }
}

/// What a line says is the number that it names and the container id that it names, and no names.
pub proof fn law_line_says_what_it_names(line: Seq<u8>, info: ProcessCGroupInfo)
    requires
        line_says(line, info),
    ensures
        info.lxc_vm_id is Some && lxc_id_of(line) == Some(info.lxc_vm_id->0 as nat),
        info.lxc_name is None,
        info.docker_container_name is None,
        info.docker_container_id is Some <==> container_bytes(line) is Some,
        info.docker_container_id matches Some(id) ==> encode_utf8(id@) == container_bytes(line)->0,
{
}

/// The line that counts is the first that names an LXC container: every line before it names none.
/// Where no line does, none counts.
pub proof fn law_first_naming_line_counts(lines: Seq<Seq<u8>>, at: int)
    requires
        0 <= at <= lines.len(),
        forall|i: int| 0 <= i < at ==> lxc_id_of(#[trigger] lines[i]) is None,
        at < lines.len() ==> lxc_id_of(lines[at]) is Some,
    ensures
        first_lxc_line(lines) == (if at < lines.len() {
            Some(lines[at])
        } else {
            None
        }),
    decreases lines.len(),
{
    if lines.len() > 0 && at > 0 {
        let rest = lines.skip(1);
        assert(lxc_id_of(lines[0]) is None);
        assert forall|i: int| 0 <= i < at - 1 implies lxc_id_of(#[trigger] rest[i]) is None by {
            assert(rest[i] == lines[i + 1]);
        }
        law_first_naming_line_counts(rest, at - 1);
    }
}

/// A chunk is read up to its last line feed: the part that is read ends with one, or is empty, and
/// the part that is left has none.
pub proof fn law_chunk_is_read_to_its_last_feed(chunk: Seq<u8>)
    ensures
        complete_len(chunk) <= chunk.len(),
        complete_len(chunk) > 0 ==> chunk[complete_len(chunk) - 1] == 10,
        forall|i: int| complete_len(chunk) <= i < chunk.len() ==> #[trigger] chunk[i] != 10,
    decreases chunk.len(),
{
    if chunk.len() > 0 && chunk.last() != 10 {
        let shorter = chunk.drop_last();
        law_chunk_is_read_to_its_last_feed(shorter);
        assert forall|i: int| complete_len(chunk) <= i < chunk.len() implies #[trigger] chunk[i]
            != 10 by {
            if i < shorter.len() {
                assert(shorter[i] == chunk[i]);
            }
        }
    }
}

/// Putting the docker container's name in changes nothing else of what is known of a process.
pub proof fn law_naming_keeps_the_rest(
    info: ProcessCGroupInfo,
    read: ProcessCGroupInfo,
    name: Option<Seq<char>>,
)
    requires
        with_name(info, read, name),
    ensures
        info.lxc_vm_id == read.lxc_vm_id,
        info.lxc_name == read.lxc_name,
        info.docker_container_id == read.docker_container_id,
        name is None <==> info.docker_container_name is None,
        name matches Some(text) ==> info.docker_container_name->0@ == text,
{
}

/// A container is called what docker wrote between the slash and the line feed, where docker ran,
/// succeeded and wrote text, and has no name otherwise; the reason is then that of what went wrong.
pub proof fn law_container_is_called_what_docker_wrote(
    output: Output,
    name: Seq<u8>,
    error: Error,
    reason: Error,
)
    ensures
        output.success && output.stdout@ == seq![47u8] + name + seq![10u8] && valid_utf8(name)
            ==> named_in(Ok(output)) == Some(decode_utf8(name)),
        output.success && output.stdout@ == seq![47u8] + name + seq![10u8] && !valid_utf8(name)
            ==> named_in(Ok(output)) is None,
        !output.success ==> named_in(Ok(output)) is None,
        named_in(Err(error)) is None,
        is_reason(reason, Err(error)) ==> reason == error,
        !output.success && is_reason(reason, Ok(output)) ==> reason is Status && reason->status
            == output.status,
        output.success && is_reason(reason, Ok(output)) ==> reason is InvalidString,
{
    law_name_is_found_in_what_docker_writes(name);
}

} // verus!
