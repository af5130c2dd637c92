//! The filter that keeps executed commands from sockets and processes of the host: a program of the
//! Linux packet filter machine that decides on each system call.

use vstd::prelude::*;

verus! {

/// An instruction of the packet filter machine.
#[derive(Clone, Copy, Debug, PartialEq, Eq, Structural)]
pub struct FilterInstruction {
    pub code: u16,
    pub jt: u8,
    pub jf: u8,
    pub k: u32,
}

/// Loads the word at offset `k` of the description of the system call.
pub const LOAD: u16 = 0x20;

/// Jumps `jt` instructions where the loaded word equals `k`, else `jf` instructions.
pub const JUMP_EQUAL: u16 = 0x15;

/// Jumps `jt` instructions where the loaded word is at least `k`, else `jf` instructions.
pub const JUMP_AT_LEAST: u16 = 0x35;

/// Decides `k`.
pub const RETURN: u16 = 0x06;

/// The system call is made.
pub const ALLOWED: u32 = 0x7fff_0000;

/// The system call fails with the error that an operation is not permitted.
pub const NOT_PERMITTED: u32 = 0x0005_0001;

/// The process is killed.
pub const KILLED: u32 = 0x8000_0000;

/// The family of Unix sockets.
pub const UNIX_FAMILY: u32 = 1;

/// The first system call number of the alternative numbering, which is not served.
pub const ALTERNATIVE_NUMBERS: u32 = 0x4000_0000;

/// The numbers by which an architecture knows the system calls that the filter is about.
#[derive(Clone, Copy, Debug, PartialEq, Eq, Structural)]
pub struct SystemCallNumbers {
    /// The number of the architecture itself.
    pub architecture: u32,
    pub io_uring_setup: u32,
    pub pidfd_getfd: u32,
    pub ptrace: u32,
    pub process_vm_readv: u32,
    pub process_vm_writev: u32,
    pub socket: u32,
}

/// What the machine sees of a system call: its number, its architecture, and the low word of its
/// first argument.
pub struct SystemCall {
    pub number: u32,
    pub architecture: u32,
    pub argument: u32,
}

/// What the machine decides on a system call when it goes on at instruction `at` with `word`
/// loaded, or nothing where the program runs out or does what the machine does not know.
pub open spec fn run(
    program: Seq<FilterInstruction>,
    call: SystemCall,
    at: int,
    word: u32,
) -> Option<u32>
    decreases
            (if at >= program.len() {
                0
            } else {
                program.len() - at
            }),
{
    if !(0 <= at < program.len()) {
        None
    } else {
        let instruction = program[at];
        if instruction.code == LOAD {
            if instruction.k == 0 {
                run(program, call, at + 1, call.number)
            } else if instruction.k == 4 {
                run(program, call, at + 1, call.architecture)
            } else if instruction.k == 16 {
                run(program, call, at + 1, call.argument)
            } else {
                None
            }
        } else if instruction.code == JUMP_EQUAL {
            if word == instruction.k {
                run(program, call, at + 1 + instruction.jt, word)
            } else {
                run(program, call, at + 1 + instruction.jf, word)
            }
        } else if instruction.code == JUMP_AT_LEAST {
            if word >= instruction.k {
                run(program, call, at + 1 + instruction.jt, word)
            } else {
                run(program, call, at + 1 + instruction.jf, word)
            }
        } else if instruction.code == RETURN {
            Some(instruction.k)
        } else {
            None
        }
    }
}

/// What is to be decided on a system call: a call of another architecture kills the process; calls
/// by alternative numbers, calls that reach into other processes or go round the filter, and the
/// making of Unix sockets are not permitted; everything else is allowed.
pub open spec fn decision(numbers: SystemCallNumbers, call: SystemCall) -> u32 {
    if call.architecture != numbers.architecture {
        KILLED
    } else if call.number >= ALTERNATIVE_NUMBERS || call.number == numbers.io_uring_setup
        || call.number == numbers.pidfd_getfd || call.number == numbers.ptrace || call.number
        == numbers.process_vm_readv || call.number == numbers.process_vm_writev {
        NOT_PERMITTED
    } else if call.number == numbers.socket && call.argument == UNIX_FAMILY {
        NOT_PERMITTED
    } else {
        ALLOWED
    }
}

/// The program of the filter.
pub open spec fn boundary(numbers: SystemCallNumbers) -> Seq<FilterInstruction> {
    seq![
        FilterInstruction { code: LOAD, jt: 0, jf: 0, k: 4 },
        FilterInstruction { code: JUMP_EQUAL, jt: 1, jf: 0, k: numbers.architecture },
        FilterInstruction { code: RETURN, jt: 0, jf: 0, k: KILLED },
        FilterInstruction { code: LOAD, jt: 0, jf: 0, k: 0 },
        FilterInstruction { code: JUMP_AT_LEAST, jt: 0, jf: 1, k: ALTERNATIVE_NUMBERS },
        FilterInstruction { code: RETURN, jt: 0, jf: 0, k: NOT_PERMITTED },
        FilterInstruction { code: JUMP_EQUAL, jt: 0, jf: 1, k: numbers.io_uring_setup },
        FilterInstruction { code: RETURN, jt: 0, jf: 0, k: NOT_PERMITTED },
        FilterInstruction { code: JUMP_EQUAL, jt: 0, jf: 1, k: numbers.pidfd_getfd },
        FilterInstruction { code: RETURN, jt: 0, jf: 0, k: NOT_PERMITTED },
        FilterInstruction { code: JUMP_EQUAL, jt: 0, jf: 1, k: numbers.ptrace },
        FilterInstruction { code: RETURN, jt: 0, jf: 0, k: NOT_PERMITTED },
        FilterInstruction { code: JUMP_EQUAL, jt: 0, jf: 1, k: numbers.process_vm_readv },
        FilterInstruction { code: RETURN, jt: 0, jf: 0, k: NOT_PERMITTED },
        FilterInstruction { code: JUMP_EQUAL, jt: 0, jf: 1, k: numbers.process_vm_writev },
        FilterInstruction { code: RETURN, jt: 0, jf: 0, k: NOT_PERMITTED },
        FilterInstruction { code: JUMP_EQUAL, jt: 0, jf: 3, k: numbers.socket },
        FilterInstruction { code: LOAD, jt: 0, jf: 0, k: 16 },
        FilterInstruction { code: JUMP_EQUAL, jt: 0, jf: 1, k: UNIX_FAMILY },
        FilterInstruction { code: RETURN, jt: 0, jf: 0, k: NOT_PERMITTED },
        FilterInstruction { code: RETURN, jt: 0, jf: 0, k: ALLOWED },
    ]
}

/// The filter decides every system call, and decides it as it is to be decided.
pub proof fn law_filter_decides(numbers: SystemCallNumbers, call: SystemCall, word: u32)
    ensures
        run(boundary(numbers), call, 0, word) == Some(decision(numbers, call)),
{
    let program = boundary(numbers);
    let number = call.number;
    assert(run(program, call, 20, number) == Some(ALLOWED));
    assert(run(program, call, 20, call.argument) == Some(ALLOWED));
    assert(run(program, call, 19, call.argument) == Some(NOT_PERMITTED));
    assert(run(program, call, 18, call.argument) == Some(
        if call.argument == UNIX_FAMILY {
            NOT_PERMITTED
        } else {
            ALLOWED
        },
    ));
    assert(run(program, call, 17, number) == run(program, call, 18, call.argument));
    assert(run(program, call, 16, number) == if number == numbers.socket {
        run(program, call, 17, number)
    } else {
        Some(ALLOWED)
    });
    assert(run(program, call, 15, number) == Some(NOT_PERMITTED));
    assert(run(program, call, 14, number) == if number == numbers.process_vm_writev {
        Some(NOT_PERMITTED)
    } else {
        run(program, call, 16, number)
    });
    assert(run(program, call, 13, number) == Some(NOT_PERMITTED));
    assert(run(program, call, 12, number) == if number == numbers.process_vm_readv {
        Some(NOT_PERMITTED)
    } else {
        run(program, call, 14, number)
    });
    assert(run(program, call, 11, number) == Some(NOT_PERMITTED));
    assert(run(program, call, 10, number) == if number == numbers.ptrace {
        Some(NOT_PERMITTED)
    } else {
        run(program, call, 12, number)
    });
    assert(run(program, call, 9, number) == Some(NOT_PERMITTED));
    assert(run(program, call, 8, number) == if number == numbers.pidfd_getfd {
        Some(NOT_PERMITTED)
    } else {
        run(program, call, 10, number)
    });
    assert(run(program, call, 7, number) == Some(NOT_PERMITTED));
    assert(run(program, call, 6, number) == if number == numbers.io_uring_setup {
        Some(NOT_PERMITTED)
    } else {
        run(program, call, 8, number)
    });
    assert(run(program, call, 5, number) == Some(NOT_PERMITTED));
    assert(run(program, call, 4, number) == if number >= ALTERNATIVE_NUMBERS {
        Some(NOT_PERMITTED)
    } else {
        run(program, call, 6, number)
    });
    assert(run(program, call, 3, call.architecture) == run(program, call, 4, number));
    assert(run(program, call, 2, call.architecture) == Some(KILLED));
    assert(run(program, call, 1, call.architecture) == if call.architecture
        == numbers.architecture {
        run(program, call, 3, call.architecture)
    } else {
        Some(KILLED)
    });
    assert(run(program, call, 0, word) == run(program, call, 1, call.architecture));
}

fn instruction(code: u16, jt: u8, jf: u8, k: u32) -> (result: FilterInstruction)
    ensures
        result == (FilterInstruction { code, jt, jf, k }),
{
    FilterInstruction { code, jt, jf, k }
}

/// The program of the filter.
pub fn fixed_socket_boundary(numbers: &SystemCallNumbers) -> (result: Vec<FilterInstruction>)
    ensures
        result@ == boundary(*numbers),
{
    let mut filter: Vec<FilterInstruction> = Vec::new();
    filter.push(instruction(LOAD, 0, 0, 4));
    filter.push(instruction(JUMP_EQUAL, 1, 0, numbers.architecture));
    filter.push(instruction(RETURN, 0, 0, KILLED));
    filter.push(instruction(LOAD, 0, 0, 0));
    filter.push(instruction(JUMP_AT_LEAST, 0, 1, ALTERNATIVE_NUMBERS));
    filter.push(instruction(RETURN, 0, 0, NOT_PERMITTED));
    filter.push(instruction(JUMP_EQUAL, 0, 1, numbers.io_uring_setup));
    filter.push(instruction(RETURN, 0, 0, NOT_PERMITTED));
    filter.push(instruction(JUMP_EQUAL, 0, 1, numbers.pidfd_getfd));
    filter.push(instruction(RETURN, 0, 0, NOT_PERMITTED));
    filter.push(instruction(JUMP_EQUAL, 0, 1, numbers.ptrace));
    filter.push(instruction(RETURN, 0, 0, NOT_PERMITTED));
    filter.push(instruction(JUMP_EQUAL, 0, 1, numbers.process_vm_readv));
    filter.push(instruction(RETURN, 0, 0, NOT_PERMITTED));
    filter.push(instruction(JUMP_EQUAL, 0, 1, numbers.process_vm_writev));
    filter.push(instruction(RETURN, 0, 0, NOT_PERMITTED));
    filter.push(instruction(JUMP_EQUAL, 0, 3, numbers.socket));
    filter.push(instruction(LOAD, 0, 0, 16));
    filter.push(instruction(JUMP_EQUAL, 0, 1, UNIX_FAMILY));
    filter.push(instruction(RETURN, 0, 0, NOT_PERMITTED));
    filter.push(instruction(RETURN, 0, 0, ALLOWED));
    assert(filter@ =~= boundary(*numbers));
    filter
}

/// What the filter does with each system call: one of another architecture ends the process; one by
/// an alternative number, one that could reach into another process or around the filter, and a
/// socket of the UNIX family are not permitted; every other one is allowed.
pub proof fn law_the_filter_keeps_calls_inside(numbers: SystemCallNumbers, call: SystemCall, word: u32)
    ensures
        ({
            let answer = run(boundary(numbers), call, 0, word);
            let reaches_out = call.number == numbers.io_uring_setup || call.number
                == numbers.pidfd_getfd || call.number == numbers.ptrace || call.number
                == numbers.process_vm_readv || call.number == numbers.process_vm_writev;
            let alternative = call.number >= 0x4000_0000u32;
            let unix_socket = call.number == numbers.socket && call.argument == 1u32;
            &&& call.architecture != numbers.architecture <==> answer == Some(0x8000_0000u32)
            &&& call.architecture == numbers.architecture && (alternative || reaches_out
                || unix_socket) <==> answer == Some(0x0005_0001u32)
            &&& call.architecture == numbers.architecture && !alternative && !reaches_out
                && !unix_socket <==> answer == Some(0x7fff_0000u32)
        }),
{
    law_filter_decides(numbers, call, word);
}

} // verus!
