//! Laws on simulators and their debugger.

use vstd::prelude::*;
use vstd::utf8::{char_u32_cast, encode_scalar, encode_utf8};

use crate::laws::text::{has_no_blank, is_blank, trimming_takes_the_ends, words_of_one, words_of_two};
use crate::number::{decimal_value, number_fault};
use crate::simulator::{
    arch_of, behind_bytes, byte_length, byte_width, cut_is_behind_its_bytes, exit_verdict,
    last_holding, output_verdict, simulator_script, without_last, Verdict,
};
use crate::text::{is_white_space, joined, lines, occurs, split_of_one, split_of_two, words};

verus! {

/// The bytes of a text are those of its UTF-8.
pub proof fn bytes_are_those_of_utf8(text: Seq<char>)
    ensures
        byte_length(text) == encode_utf8(text).len(),
    decreases text.len(),
{
    if text.len() > 0 {
        bytes_are_those_of_utf8(text.skip(1));
        assert(text.drop_first() =~= text.skip(1));
        char_u32_cast(text[0], text[0] as u32);
        assert(encode_scalar(text[0] as u32).len() == byte_width(text[0]));
    }
}

/// What stands behind some bytes has as many before it, and every place between two characters
/// is found.
pub proof fn rest_is_behind_so_many_bytes(front: Seq<char>, rest: Seq<char>)
    ensures
        behind_bytes(front + rest, encode_utf8(front).len()) == Some(rest),
{
    bytes_are_those_of_utf8(front);
    cut_is_behind_its_bytes(front, rest);
}

/// What is found behind some bytes is the rest of the text behind them.
pub proof fn found_rest_ends_the_text(text: Seq<char>, count: nat) -> (front: Seq<char>)
    requires
        behind_bytes(text, count) is Some,
    ensures
        encode_utf8(front).len() == count,
        behind_bytes(text, count) matches Some(rest) && text == front + rest,
    decreases text.len(),
{
    if count == 0 {
        let front = Seq::<char>::empty();
        assert(text =~= front + text);
        front
    } else {
        let before = found_rest_ends_the_text(
            text.skip(1),
            (count - byte_width(text[0])) as nat,
        );
        let front = seq![text[0]] + before;
        bytes_are_those_of_utf8(before);
        bytes_are_those_of_utf8(front);
        assert(front.skip(1) =~= before);
        let rest = behind_bytes(text, count)->0;
        assert(text.skip(1) == before + rest);
        assert(text =~= seq![text[0]] + text.skip(1));
        assert(text =~= front + rest);
        front
    }
}

/// Output without a line on an exit says nothing.
pub proof fn output_without_exit_says_nothing(output: Seq<char>)
    requires
        forall|i: int|
            0 <= i < lines(output).len() ==> !occurs(
                #[trigger] lines(output)[i],
                "exited with status"@,
            ),
    ensures
        output_verdict(output) is Missing,
{
    lemma_none_holding(lines(output), "exited with status"@);
}

proof fn lemma_none_holding(list: Seq<Seq<char>>, wanted: Seq<char>)
    requires
        forall|i: int| 0 <= i < list.len() ==> !occurs(#[trigger] list[i], wanted),
    ensures
        last_holding(list, wanted) == -1,
    decreases list.len(),
{
    if list.len() > 0 {
        assert(!occurs(list[list.len() - 1], wanted));
        assert forall|i: int| 0 <= i < list.drop_last().len() implies !occurs(
            #[trigger] list.drop_last()[i],
            wanted,
        ) by {
            assert(!occurs(list[i], wanted));
        }
        lemma_none_holding(list.drop_last(), wanted);
    }
}

/// The status is the last word but one of a line, whatever white space parts the words. One
/// that is no number cannot be read, and 0 alone passes.
pub proof fn last_word_but_one_is_the_status(
    front: Seq<char>,
    first: char,
    status: Seq<char>,
    second: char,
    tail: Seq<char>,
)
    requires
        is_white_space(first),
        is_white_space(second),
        status.len() > 0,
        has_no_blank(status),
        tail.len() > 0,
        has_no_blank(tail),
    ensures
        ({
            let verdict = exit_verdict(front + seq![first] + status + seq![second] + tail);
            match decimal_value(status, u32::MAX as nat) {
                None => verdict == Verdict::Unreadable(number_fault(status, u32::MAX as nat)),
                Some(number) => {
                    &&& number == 0 ==> verdict is Passed
                    &&& number > 0 ==> (verdict matches Verdict::Failed(code) && code == number)
                },
            }
        }),
{
    let line = front + seq![first] + status + seq![second] + tail;
    words_of_one(Seq::empty(), status);
    words_of_one(Seq::empty(), tail);
    words_of_two(front + seq![first] + status, second, tail);
    words_of_two(front, first, status);
    assert(words(line) == words(front) + seq![status] + seq![tail]);
    assert(words(line)[words(line).len() - 2] == status);
}

/// The container is told without the line feed behind it.
pub proof fn line_feed_is_cut_off(path: Seq<char>, end: char)
    ensures
        without_last(path + seq![end]) == path,
        without_last(Seq::empty()) == Seq::<char>::empty(),
{
    assert((path + seq![end]).drop_last() =~= path);
}

/// The processor is the last word behind a blank, without the white space at its ends.
pub proof fn last_word_is_the_processor(front: Seq<char>, left: Seq<char>, arch: Seq<char>, right: Seq<char>)
    requires
        is_blank(left),
        is_blank(right),
        !left.contains(' '),
        !right.contains(' '),
        has_no_blank(arch),
    ensures
        arch_of(front + seq![' '] + (left + arch + right)) == arch,
        arch_of(left + arch + right) == arch,
{
    let last = left + arch + right;
    assert(!last.contains(' ')) by {
        if last.contains(' ') {
            let i = choose|i: int| 0 <= i < last.len() && last[i] == ' ';
            if i < left.len() {
                assert(left[i] == ' ');
            } else if i < left.len() + arch.len() {
                assert(!is_white_space(arch[i - left.len()]));
            } else {
                assert(right[i - left.len() - arch.len()] == ' ');
            }
        }
    }
    split_of_one(last, ' ');
    split_of_two(front, last, ' ');
    if arch.len() > 0 {
        assert(!is_white_space(arch[0]));
        assert(!is_white_space(arch[arch.len() - 1]));
    }
    trimming_takes_the_ends(left, arch, right);
}

/// The debugger connects to the simulator either way. Without a session of its own it starts
/// the application with all arguments behind that, and is left.
pub proof fn script_connects_and_starts(
    id: Seq<char>,
    installed: Seq<char>,
    helpers: Seq<char>,
    args: Seq<Seq<char>>,
)
    ensures
        ({
            let session = simulator_script(id, installed, helpers, args, true);
            &&& session == "platform select ios-simulator\ntarget create "@ + installed
                + "\nscript pass\ncommand script import "@ + helpers
                + "\ncommand script add -s synchronous -f helpers.start start\ncommand script add -f helpers.connect_command connect\nconnect connect://"@
                + id + "\n"@
            &&& simulator_script(id, installed, helpers, args, false) == session + "start "@
                + joined(args, " "@) + "\nquit\n"@
        }),
{
}

} // verus!
