//! Small helpers shared by the servers.

use vstd::prelude::*;

verus! {

/// The byte that ends a line on the wire.
pub const LINE_FEED: u8 = 10;

/// The byte that some peers send before the line feed.
pub const CARRIAGE_RETURN: u8 = 13;

/// The texts of a list of strings, in order.
pub open spec fn texts(list: Seq<String>) -> Seq<Seq<char>> {
    Seq::new(list.len(), |i: int| list[i]@)
}

/// A configured list of endpoints asks for a service exactly when it names
/// at least one endpoint.
pub fn should_start_service(config: &Vec<String>) -> (start: bool)
    ensures
        start == (config@.len() > 0),
{
    config.len() > 0
}

/// Whether a byte is a line-ending artifact: a line feed or a carriage return.
pub open spec fn is_line_ending(byte: u8) -> bool {
    byte == 10 || byte == 13
}

/// `line` without the line-ending artifacts at its end: every trailing line
/// feed and carriage return goes, everything before them stays.
pub open spec fn without_line_endings(line: Seq<u8>) -> Seq<u8>
    decreases line.len(),
{
    if line.len() > 0 && is_line_ending(line.last()) {
        without_line_endings(line.drop_last())
    } else {
        line
    }
}

/// What stripping means, said without recursion: the result is the start of
/// the line, it does not end in a line-ending artifact, and nothing but such
/// artifacts was cut off.
pub proof fn lemma_without_line_endings(line: Seq<u8>)
    ensures
        without_line_endings(line).len() <= line.len(),
        without_line_endings(line) == line.subrange(0, without_line_endings(line).len() as int),
        without_line_endings(line).len() > 0 ==> !is_line_ending(
            without_line_endings(line).last(),
        ),
        forall|i: int|
            without_line_endings(line).len() <= i < line.len() ==> is_line_ending(
                #[trigger] line[i],
            ),
    decreases line.len(),
{
    if line.len() > 0 && is_line_ending(line.last()) {
        let shorter = line.drop_last();
        lemma_without_line_endings(shorter);
        let kept = without_line_endings(shorter).len() as int;
        assert(shorter.subrange(0, kept) =~= line.subrange(0, kept));
        assert forall|i: int| kept <= i < line.len() implies is_line_ending(
            #[trigger] line[i],
        ) by {
            if i < shorter.len() {
                assert(shorter[i] == line[i]);
            }
        }
    } else {
        assert(line.subrange(0, line.len() as int) =~= line);
    }
}

/// Stripping is idempotent, and a line without trailing artifacts is left
/// as it is.
pub proof fn lemma_strip_is_idempotent(line: Seq<u8>)
    ensures
        without_line_endings(without_line_endings(line)) == without_line_endings(line),
        (line.len() == 0 || !is_line_ending(line.last())) ==> without_line_endings(line) == line,
    decreases line.len(),
{
    if line.len() > 0 && is_line_ending(line.last()) {
        lemma_strip_is_idempotent(line.drop_last());
    }
}

/// Cuts the line-ending artifacts off the end of a received line.
pub fn strip_line_endings(line: &[u8]) -> (stripped: &[u8])
    ensures
        stripped@ == without_line_endings(line@),
{
    let mut end: usize = line.len();
    assert(line@.subrange(0, end as int) =~= line@);
    while end > 0 && (line[end - 1] == LINE_FEED || line[end - 1] == CARRIAGE_RETURN)
        invariant
            end <= line@.len(),
            without_line_endings(line@) == without_line_endings(line@.subrange(0, end as int)),
        decreases end,
    {
        proof {
            let current = line@.subrange(0, end as int);
            assert(current.last() == line@[end - 1]);
            assert(current.drop_last() =~= line@.subrange(0, end - 1));
        }
        end = end - 1;
    }
    proof {
        let current = line@.subrange(0, end as int);
        if end > 0 {
            assert(current.last() == line@[end - 1]);
        }
        assert(without_line_endings(current) == current);
    }
    &line[0..end]
}

} // verus!
