//! Replacing stretches of a source file.

use vstd::prelude::*;

verus! {

/// A stretch of a source file that is to be replaced: the bytes from `start` up to, not
/// including, `end` give way to `replacement`.
pub struct Replace {
    pub start: usize,
    pub end: usize,
    pub replacement: String,
}

impl Replace {
    /// The bytes that take the place of the stretch.
    pub open spec fn bytes(self) -> Seq<u8> {
        vstd::utf8::encode_utf8(self.replacement@)
    }

    /// The replacement of what stands between two delimiters, where the delimiters and
    /// what stands between them reach from byte `start` up to byte `end`: the delimiters,
    /// one byte each, stay.
    pub fn inside(start: usize, end: usize, replacement: String) -> (replace: Replace)
        requires
            start < end,
        ensures
            replace.start == start + 1,
            replace.end == end - 1,
            replace.replacement == replacement,
    {
        Replace { start: start + 1, end: end - 1, replacement }
    }
}

/// Whether the replacements from number `at` on can be made in a file of `len` bytes of
/// which the first `from` are dealt with: each begins in the file, at or behind the
/// place where the one before it ended, and the last one ends in the file.
pub open spec fn applicable(len: nat, replacements: Seq<Replace>, from: int, at: int) -> bool
    decreases replacements.len() - at,
{
    if at < 0 || at >= replacements.len() {
        0 <= from <= len
    } else {
        0 <= from <= replacements[at].start <= len && applicable(
            len,
            replacements,
            replacements[at].end as int,
            at + 1,
        )
    }
}

/// The file behind its first `from` bytes, with the replacements from number `at` on made.
pub open spec fn applied(input: Seq<u8>, replacements: Seq<Replace>, from: int, at: int) -> Seq<
    u8,
>
    decreases replacements.len() - at,
{
    if at < 0 || at >= replacements.len() {
        input.subrange(from, input.len() as int)
    } else {
        input.subrange(from, replacements[at].start as int) + replacements[at].bytes() + applied(
            input,
            replacements,
            replacements[at].end as int,
            at + 1,
        )
    }
}

/// Checks that the replacements can be made in a file of `len` bytes.
pub fn can_apply(len: usize, replacements: &Vec<Replace>) -> (ok: bool)
    ensures
        ok == applicable(len as nat, replacements@, 0, 0),
{
    let mut current: usize = 0;
    let mut at: usize = 0;
    while at < replacements.len()
        invariant
            at <= replacements@.len(),
            applicable(len as nat, replacements@, 0, 0) == applicable(
                len as nat,
                replacements@,
                current as int,
                at as int,
            ),
        decreases replacements@.len() - at,
    {
        let next = &replacements[at];
        if current > next.start || next.start > len {
            return false;
        }
        current = next.end;
        at += 1;
    }
    current <= len
}

/// Puts the bytes of `source` from `from` up to `to` behind `output`.
fn copy_range(output: &mut Vec<u8>, source: &[u8], from: usize, to: usize)
    requires
        from <= to <= source@.len(),
    ensures
        final(output)@ == old(output)@ + source@.subrange(from as int, to as int),
{
    let mut i = from;
    while i < to
        invariant
            from <= i <= to <= source@.len(),
            output@ == old(output)@ + source@.subrange(from as int, i as int),
        decreases to - i,
    {
        output.push(source[i]);
        i += 1;
        assert(output@ =~= old(output)@ + source@.subrange(from as int, i as int));
    }
    assert(output@ =~= old(output)@ + source@.subrange(from as int, to as int));
}

/// Makes the replacements in the file: what stands between them stays, in its order.
pub fn apply(input: &[u8], replacements: &Vec<Replace>) -> (output: Vec<u8>)
    requires
        applicable(input@.len(), replacements@, 0, 0),
    ensures
        output@ == applied(input@, replacements@, 0, 0),
{
    let mut output: Vec<u8> = Vec::new();
    let mut current: usize = 0;
    let mut at: usize = 0;
    while at < replacements.len()
        invariant
            at <= replacements@.len(),
            applicable(input@.len(), replacements@, current as int, at as int),
            output@ + applied(input@, replacements@, current as int, at as int) == applied(
                input@,
                replacements@,
                0,
                0,
            ),
        decreases replacements@.len() - at,
    {
        let next = &replacements[at];
        let ghost before = output@;
        let ghost rest = applied(input@, replacements@, next.end as int, at + 1);
        copy_range(&mut output, input, current, next.start);
        let bytes = next.replacement.as_str().as_bytes();
        copy_range(&mut output, bytes, 0, bytes.len());
        proof {
            assert(bytes@.subrange(0, bytes@.len() as int) =~= bytes@);
            assert(output@ + rest =~= before + (input@.subrange(
                current as int,
                next.start as int,
            ) + next.bytes() + rest));
        }
        current = next.end;
        at += 1;
    }
    copy_range(&mut output, input, current, input.len());
    output
}

} // verus!
