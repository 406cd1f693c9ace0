//! The `--dump-args` flow, which captures a running instance's arguments
//! before restarting it.

use vstd::prelude::*;
use vstd::utf8::{decode_utf8, valid_utf8};
use crate::encoding;
use crate::number;
use crate::shell;
use crate::text;

verus! {

/// The arguments that `pieces` are. An empty one at the end stands behind the
/// NUL byte that ends the last argument.
pub open spec fn without_terminator(pieces: Seq<Seq<char>>) -> Seq<Seq<char>> {
    if pieces.last().len() == 0 {
        pieces.drop_last()
    } else {
        pieces
    }
}

/// The arguments in the bytes of a `cmdline` file: what stands between its NUL
/// bytes.
pub open spec fn cmdline_args(data: Seq<u8>) -> Seq<Seq<char>> {
    without_terminator(
        text::split(data, 0u8).map_values(|piece: Seq<u8>| encoding::lossy_text(piece)),
    )
}

/// The arguments in the bytes of a `cmdline` file that is UTF-8.
pub open spec fn utf8_args(data: Seq<u8>) -> Seq<Seq<char>> {
    without_terminator(text::split(data, 0u8).map_values(|piece: Seq<u8>| decode_utf8(piece)))
}

/// What stands between the NUL bytes of UTF-8 is UTF-8.
pub proof fn pieces_are_utf8(data: Seq<u8>)
    requires
        valid_utf8(data),
    ensures
        forall|i: int|
            0 <= i < text::split(data, 0u8).len() ==> valid_utf8(
                #[trigger] text::split(data, 0u8)[i],
            ),
    decreases data.len(),
{
    text::lemma_index_from(data, 0u8, 0);
    if let Some(k) = text::index_of(data, 0u8) {
        vstd::utf8::is_char_boundary_iff_not_is_continuation_byte(data, k);
        vstd::utf8::valid_utf8_split(data, k);
        let behind = data.subrange(k, data.len() as int);
        assert(behind[0] == 0);
        assert(vstd::utf8::pop_first_scalar(behind) == data.skip(k + 1));
        assert(data.take(k) == data.subrange(0, k));
        pieces_are_utf8(data.skip(k + 1));
        let rest = text::split(data.skip(k + 1), 0u8);
        assert forall|i: int| 0 <= i < text::split(data, 0u8).len() implies valid_utf8(
            #[trigger] text::split(data, 0u8)[i],
        ) by {
            if i > 0 {
                assert(text::split(data, 0u8)[i] == rest[i - 1]);
            }
        }
    }
}

/// A process without arguments has an empty file, and only such a process.
pub proof fn only_an_empty_file_has_no_arguments(data: Seq<u8>)
    requires
        valid_utf8(data),
    ensures
        utf8_args(data).len() == 0 <==> data.len() == 0,
{
    text::lemma_index_from(data, 0u8, 0);
    let pieces = text::split(data, 0u8);
    match text::index_of(data, 0u8) {
        Some(k) => {
            text::lemma_split_is_not_empty(data.skip(k + 1), 0u8);
        },
        None => {
            assert(pieces == seq![data]);
            assert(pieces.map_values(|piece: Seq<u8>| decode_utf8(piece)).last() == decode_utf8(
                data,
            ));
        },
    }
}

/// Parses raw `/proc/<pid>/cmdline` bytes into a list of arguments.
/// Splits on NUL bytes, strips the trailing empty element from the terminator.
pub fn parse_cmdline_bytes(data: &[u8]) -> (r: Vec<String>)
    ensures
        text::strings(r@) == cmdline_args(data@),
        valid_utf8(data@) ==> text::strings(r@) == utf8_args(data@),
{
    let pieces = text::split_bytes(data, 0);
    let ghost all = text::split(data@, 0u8).map_values(
        |piece: Seq<u8>| encoding::lossy_text(piece),
    );
    let ghost plain = text::split(data@, 0u8).map_values(|piece: Seq<u8>| decode_utf8(piece));
    let mut args: Vec<String> = Vec::new();
    let mut i: usize = 0;
    while i < pieces.len()
        invariant
            i <= pieces@.len(),
            text::slices(pieces@) == text::split(data@, 0u8),
            all == text::split(data@, 0u8).map_values(
                |piece: Seq<u8>| encoding::lossy_text(piece),
            ),
            plain == text::split(data@, 0u8).map_values(|piece: Seq<u8>| decode_utf8(piece)),
            args@.len() == i,
            forall|k: int| 0 <= k < i ==> #[trigger] args@[k]@ == all[k],
            forall|k: int|
                0 <= k < i && valid_utf8(text::split(data@, 0u8)[k]) ==> #[trigger] args@[k]@
                    == plain[k],
        decreases pieces@.len() - i,
    {
        assert(text::slices(pieces@)[i as int] == pieces@[i as int]@);
        args.push(encoding::utf8_lossy(pieces[i]));
        i += 1;
    }
    proof {
        text::lemma_split_is_not_empty(data@, 0u8);
        assert(text::slices(pieces@).len() == pieces@.len());
        assert(text::strings(args@) == all);
        if valid_utf8(data@) {
            pieces_are_utf8(data@);
            assert(text::strings(args@) == plain);
        }
    }
    if args[args.len() - 1].as_str().is_empty() {
        args.pop();
        assert(text::strings(args@) == all.drop_last());
    }
    args
}

/// The command line in the bytes of a `cmdline` file, quoted for a shell;
/// `None` where it has no arguments. Splitting it gives back the arguments.
pub fn dump_args(data: &[u8]) -> (r: Option<String>)
    ensures
        match r {
            Some(line) => cmdline_args(data@).len() > 0 && line@ == shell::shell_join(
                cmdline_args(data@),
            ) && shell::shell_split(line@) == Some(cmdline_args(data@)),
            None => cmdline_args(data@).len() == 0,
        },
        valid_utf8(data@) ==> match r {
            Some(line) => data@.len() > 0 && line@ == shell::shell_join(utf8_args(data@))
                && shell::shell_split(line@) == Some(utf8_args(data@)),
            None => data@.len() == 0,
        },
{
    let args = parse_cmdline_bytes(data);
    assert(text::strings(args@).len() == args@.len());
    proof {
        if valid_utf8(data@) {
            only_an_empty_file_has_no_arguments(data@);
        }
    }
    if args.len() == 0 {
        return None;
    }
    Some(shell::join_words(&args))
}

/// The file that holds the command line of a process.
pub fn cmdline_path(pid: u32) -> (r: String)
    ensures
        r@ == "/proc/"@ + number::nat_text(pid as nat) + "/cmdline"@,
{
    let mut path = "/proc/".to_owned();
    path.append(number::u64_text(pid as u64).as_str());
    path.append("/cmdline");
    path
}

/// What the arguments of this process ask for.
#[derive(Debug, Clone, Copy, PartialEq, Eq, Structural)]
pub enum DumpArgsRequest {
    /// The flag is absent: go on as usual.
    Absent,
    /// Print the command line of this process and end.
    Pid(u32),
    /// The flag is there without a process id: print the usage and end.
    Invalid,
}

/// `arg` is a Unicode argument that reads `what`.
pub open spec fn arg_is(arg: Option<String>, what: Seq<char>) -> bool {
    arg matches Some(a) && a@ == what
}

/// What the arguments from index `from` on ask for.
pub open spec fn request_from(args: Seq<Option<String>>, from: int) -> DumpArgsRequest
    decreases args.len() - from,
{
    if from < 0 || from >= args.len() {
        DumpArgsRequest::Absent
    } else if !arg_is(args[from], "--dump-args"@) {
        request_from(args, from + 1)
    } else if from + 1 < args.len() && args[from + 1] is Some && number::parse_u32(
        args[from + 1]->0@,
    ) is Some {
        DumpArgsRequest::Pid(number::parse_u32(args[from + 1]->0@)->0)
    } else {
        DumpArgsRequest::Invalid
    }
}

/// Checks if `--dump-args <pid>` was passed. An argument that is not Unicode
/// is `None`.
pub fn handle_dump_args(args: &Vec<Option<String>>) -> (r: DumpArgsRequest)
    ensures
        r == request_from(args@, 0),
{
    let mut i: usize = 0;
    while i < args.len()
        invariant
            i <= args@.len(),
            request_from(args@, 0) == request_from(args@, i as int),
        decreases args@.len() - i,
    {
        let found = match &args[i] {
            Some(arg) => text::same_text(arg.as_str(), "--dump-args"),
            None => false,
        };
        if found {
            if i + 1 < args.len() {
                if let Some(pid) = &args[i + 1] {
                    if let Some(pid) = number::to_u32(text::chars_of(pid.as_str()).as_slice()) {
                        return DumpArgsRequest::Pid(pid);
                    }
                }
            }
            return DumpArgsRequest::Invalid;
        }
        i += 1;
    }
    DumpArgsRequest::Absent
}

/// The arguments stand one after the other, each ended by a NUL byte; the last may
/// go without one.
pub proof fn arguments_end_at_nul_bytes(a: Seq<u8>, rest: Seq<u8>)
    requires
        !a.contains(0u8),
    ensures
        utf8_args(a.push(0u8) + rest) == seq![decode_utf8(a)] + utf8_args(rest),
        valid_utf8(a) && a.len() > 0 ==> utf8_args(a) == seq![decode_utf8(a)],
        a.len() == 0 ==> utf8_args(a).len() == 0,
{
    text::separators_part_the_pieces(a, 0u8, rest);
    text::lemma_split_is_not_empty(rest, 0u8);
    let plain = |piece: Seq<u8>| decode_utf8(piece);
    let tail = text::split(rest, 0u8).map_values(plain);
    let all = text::split(a.push(0u8) + rest, 0u8).map_values(plain);
    assert(all == seq![decode_utf8(a)] + tail);
    assert(all.last() == tail.last());
    assert(all.drop_last() == seq![decode_utf8(a)] + tail.drop_last());
    let single = text::split(a, 0u8).map_values(plain);
    assert(single == seq![decode_utf8(a)]);
    assert(single.last() == decode_utf8(a));
    if a.len() == 0 {
        assert(single.drop_last().len() == 0);
    }
}

/// The first flag decides. What follows it is the process that is asked for, where
/// it is a number; without the flag nothing is asked for.
pub proof fn first_flag_decides(args: Vec<Option<String>>, i: int, r: DumpArgsRequest)
    requires
        call_ensures(handle_dump_args, (&args,), r),
    ensures
        r == DumpArgsRequest::Absent <==> forall|k: int|
            0 <= k < args@.len() ==> !#[trigger] arg_is(args@[k], "--dump-args"@),
        0 <= i < args@.len() && arg_is(args@[i], "--dump-args"@) && (forall|k: int|
            0 <= k < i ==> !#[trigger] arg_is(args@[k], "--dump-args"@)) ==> {
            &&& i + 1 == args@.len() || args@[i + 1] is None ==> r == DumpArgsRequest::Invalid
            &&& i + 1 < args@.len() && args@[i + 1] is Some ==> match number::parse_u32(
                args@[i + 1]->0@,
            ) {
                Some(pid) => r == DumpArgsRequest::Pid(pid),
                None => r == DumpArgsRequest::Invalid,
            }
        },
{
    lemma_first_flag(args@, 0, i);
}

proof fn lemma_first_flag(args: Seq<Option<String>>, from: int, i: int)
    requires
        0 <= from <= args.len(),
    ensures
        request_from(args, from) == DumpArgsRequest::Absent <==> forall|k: int|
            from <= k < args.len() ==> !#[trigger] arg_is(args[k], "--dump-args"@),
        from <= i < args.len() && arg_is(args[i], "--dump-args"@) && (forall|k: int|
            from <= k < i ==> !#[trigger] arg_is(args[k], "--dump-args"@)) ==> request_from(
            args,
            from,
        ) == request_from(args, i),
    decreases args.len() - from,
{
    if from < args.len() && !arg_is(args[from], "--dump-args"@) {
        lemma_first_flag(args, from + 1, i);
    }
}

/// The command line that is printed splits into the arguments of the process again;
/// none is printed only where the process has no arguments.
pub proof fn printed_line_splits_into_the_arguments(
    data: &[u8],
    args: Vec<String>,
    r: Option<String>,
)
    requires
        call_ensures(parse_cmdline_bytes, (data,), args),
        call_ensures(dump_args, (data,), r),
    ensures
        r is Some <==> args@.len() > 0,
        r matches Some(line) ==> shell::shell_split(line@) == Some(text::strings(args@)),
{
    assert(text::strings(args@).len() == args@.len());
}

/// The file with the command line of a process is named by the number of the process.
pub proof fn command_line_file_is_named_by_number(pid: u32, r: String)
    requires
        call_ensures(cmdline_path, (pid,), r),
    ensures
        r@ == "/proc/"@ + number::int_text(pid as int) + "/cmdline"@,
{
}

} // verus!
