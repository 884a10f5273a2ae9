use vstd::prelude::*;

verus! {

/// SBI extension id of the legacy console putchar call.
pub const SBI_CONSOLE_PUTCHAR: i32 = 1;
/// SBI extension id of the legacy console getchar call.
pub const SBI_CONSOLE_GETCHAR: i32 = 2;

/// An SBI call: the arguments that go in `a0`..`a5`, the function id in `a6` and
/// the extension id in `a7`.
#[derive(Clone, Copy, PartialEq, Eq, Debug, Structural)]
pub struct SbiCall {
    pub arg0: i32,
    pub arg1: i32,
    pub arg2: i32,
    pub arg3: i32,
    pub arg4: i32,
    pub arg5: i32,
    pub fid: i32,
    pub eid: i32,
}

/// What an SBI call returns: `a0` and `a1`.
#[derive(Clone, Copy, PartialEq, Eq, Debug, Structural)]
pub struct SbiRet {
    pub error: i32,
    pub value: i32,
}

/// The SBI call that prints `ch` on the console.
pub open spec fn putchar_call(ch: char) -> SbiCall {
    SbiCall {
        arg0: ch as i32,
        arg1: 0,
        arg2: 0,
        arg3: 0,
        arg4: 0,
        arg5: 0,
        fid: 0,
        eid: SBI_CONSOLE_PUTCHAR,
    }
}

/// The SBI call that prints `ch` on the console.
pub fn putchar(ch: char) -> (r: SbiCall)
    ensures
        r == putchar_call(ch),
{
    SbiCall {
        arg0: ch as i32,
        arg1: 0,
        arg2: 0,
        arg3: 0,
        arg4: 0,
        arg5: 0,
        fid: 0,
        eid: SBI_CONSOLE_PUTCHAR,
    }
}

/// The console call carries the character's code unchanged, as the first
/// argument of the legacy console-putchar extension (1) with function 0 and no
/// other argument.
pub proof fn lemma_putchar_carries_char(ch: char)
    ensures
        putchar_call(ch) == (SbiCall { arg0: ch as i32, arg1: 0, arg2: 0, arg3: 0, arg4: 0, arg5: 0, fid: 0, eid: 1 }),
{
}

/// Printing a string makes one console call per character, in order, each
/// carrying that character's code.
pub proof fn lemma_write_prints_each_char(s: Seq<char>)
    ensures
        s.map_values(|c: char| putchar_call(c)).len() == s.len(),
        forall|i: int|
            0 <= i < s.len() ==> s.map_values(|c: char| putchar_call(c))[i] == (SbiCall {
                arg0: #[trigger] s[i] as i32,
                arg1: 0,
                arg2: 0,
                arg3: 0,
                arg4: 0,
                arg5: 0,
                fid: 0,
                eid: 1,
            }),
{
}

/// The SBI call that reads a character from the console.
pub fn getchar_request() -> (r: SbiCall)
    ensures
        r == (SbiCall {
            arg0: 0,
            arg1: 0,
            arg2: 0,
            arg3: 0,
            arg4: 0,
            arg5: 0,
            fid: 0,
            eid: SBI_CONSOLE_GETCHAR,
        }),
{
    SbiCall { arg0: 0, arg1: 0, arg2: 0, arg3: 0, arg4: 0, arg5: 0, fid: 0, eid: SBI_CONSOLE_GETCHAR }
}

/// The character that the console getchar call returned: its `error` register,
/// negative where no character was waiting.
pub fn getchar(ret: SbiRet) -> (r: i32)
    ensures
        r == ret.error,
{
    ret.error
}

/// The kernel console.
pub struct Writer {}

impl Writer {
    /// The SBI calls that print `s`, one putchar per character, in order.
    pub fn write_byte(&mut self, s: &str) -> (r: Vec<SbiCall>)
        ensures
            r@ == s@.map_values(|c: char| putchar_call(c)),
    {
        let mut out: Vec<SbiCall> = Vec::new();
        for c in it: s.chars()
            invariant
                it.seq() == s@,
                out@ == it.seq().take(it.index() as int).map_values(|c: char| putchar_call(c)),
        {
            out.push(putchar(c));
        }
        out
    }
}

} // verus!
