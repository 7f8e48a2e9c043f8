//! The interactive client: what a line typed by the user asks for.

use vstd::prelude::*;

verus! {

/// What to do about a line.
#[derive(Debug)]
pub enum LineAction {
    /// Nothing: the line is blank.
    Skip,
    /// Leave.
    Quit,
    /// Send these bytes to the server.
    Send(Vec<u8>),
}

/// `c` has the Unicode property White_Space.
pub open spec fn is_white_space(c: char) -> bool {
    ||| '\u{9}' <= c <= '\u{d}'
    ||| c == ' ' || c == '\u{85}' || c == '\u{a0}' || c == '\u{1680}'
    ||| '\u{2000}' <= c <= '\u{200a}'
    ||| c == '\u{2028}' || c == '\u{2029}' || c == '\u{202f}' || c == '\u{205f}' || c == '\u{3000}'
}

/// `s` without the white space at its beginning.
pub open spec fn trimmed_start(s: Seq<char>) -> Seq<char>
    decreases s.len(),
{
    if s.len() > 0 && is_white_space(s.first()) {
        trimmed_start(s.drop_first())
    } else {
        s
    }
}

/// `s` without the white space at its end.
pub open spec fn trimmed_end(s: Seq<char>) -> Seq<char>
    decreases s.len(),
{
    if s.len() > 0 && is_white_space(s.last()) {
        trimmed_end(s.drop_last())
    } else {
        s
    }
}

/// `s` without the white space at either end.
pub open spec fn trimmed(s: Seq<char>) -> Seq<char> {
    trimmed_end(trimmed_start(s))
}

/// `str::trim` removes the characters with the Unicode property White_Space
/// from both ends of a string, and nothing else.
pub assume_specification[ str::trim ](s: &str) -> (trimmed_s: &str)
    ensures
        trimmed_s@ == trimmed(s@),
;

/// What `line` asks for: a blank line for nothing, `/quit` for leaving, both
/// whatever white space surrounds it; any other line is sent as it is, in UTF-8.
pub fn on_line(line: &str) -> (action: LineAction)
    ensures
        action is Skip <==> trimmed(line@).len() == 0,
        action is Quit <==> trimmed(line@) == "/quit"@,
        action matches LineAction::Send(bytes) ==> bytes@ == vstd::utf8::encode_utf8(line@),
{
    let command: String = line.trim().to_owned();
    proof {
        reveal_strlit("/quit");
        reveal_strlit("");
        assert(command@.len() == 0 ==> command@ =~= ""@);
    }
    if command == "".to_owned() {
        return LineAction::Skip;
    }
    if command == "/quit".to_owned() {
        return LineAction::Quit;
    }
    LineAction::Send(vstd::slice::slice_to_vec(line.as_bytes()))
}

/// A line is skipped exactly when there is nothing but white space in it.
pub proof fn law_blank_means_white_space_only(s: Seq<char>)
    ensures
        trimmed(s).len() == 0 <==> forall|i: int|
            0 <= i < s.len() ==> is_white_space(#[trigger] s[i]),
{
    lemma_trimmed_start(s);
    lemma_trimmed_end(trimmed_start(s));
    let t = trimmed_start(s);
    if trimmed(s).len() == 0 {
        if t.len() > 0 {
            assert(is_white_space(t[0]));
        }
        assert forall|i: int| 0 <= i < s.len() implies is_white_space(#[trigger] s[i]) by {}
    }
    if forall|i: int| 0 <= i < s.len() ==> is_white_space(#[trigger] s[i]) {
        if t.len() > 0 {
            assert(t[0] == s[s.len() - t.len()]);
        }
    }
}

/// What is cut off at the beginning is white space, and what is left does not
/// start with any.
proof fn lemma_trimmed_start(s: Seq<char>)
    ensures
        trimmed_start(s).len() <= s.len(),
        trimmed_start(s) == s.skip(s.len() - trimmed_start(s).len()),
        forall|i: int|
            0 <= i < s.len() - trimmed_start(s).len() ==> is_white_space(#[trigger] s[i]),
        trimmed_start(s).len() > 0 ==> !is_white_space(trimmed_start(s)[0]),
    decreases s.len(),
{
    if s.len() > 0 && is_white_space(s.first()) {
        let rest = s.drop_first();
        lemma_trimmed_start(rest);
        assert(trimmed_start(s) =~= s.skip(s.len() - trimmed_start(s).len()));
        assert forall|i: int| 0 <= i < s.len() - trimmed_start(s).len() implies is_white_space(
            #[trigger] s[i],
        ) by {
            if i > 0 {
                assert(s[i] == rest[i - 1]);
            }
        }
    } else {
        assert(s =~= s.skip(0));
    }
}

/// What is cut off at the end is white space.
proof fn lemma_trimmed_end(s: Seq<char>)
    ensures
        trimmed_end(s).len() <= s.len(),
        forall|i: int| trimmed_end(s).len() <= i < s.len() ==> is_white_space(#[trigger] s[i]),
    decreases s.len(),
{
    if s.len() > 0 && is_white_space(s.last()) {
        let rest = s.drop_last();
        lemma_trimmed_end(rest);
        assert forall|i: int| trimmed_end(s).len() <= i < s.len() implies is_white_space(
            #[trigger] s[i],
        ) by {
            if i < rest.len() {
                assert(s[i] == rest[i]);
            }
        }
    }
}

/// Trimming takes away the white space around a text that neither starts nor ends
/// with any, all of it, and nothing else.
pub proof fn law_trimming_undoes_padding(before: Seq<char>, core: Seq<char>, after: Seq<char>)
    requires
        forall|i: int| 0 <= i < before.len() ==> is_white_space(#[trigger] before[i]),
        forall|i: int| 0 <= i < after.len() ==> is_white_space(#[trigger] after[i]),
        core.len() > 0,
        !is_white_space(core.first()),
        !is_white_space(core.last()),
    ensures
        trimmed(before + core + after) == core,
{
    lemma_start_padding_goes(before, core + after);
    assert(before + core + after =~= before + (core + after));
    lemma_end_padding_goes(core, after);
}

/// White space before a text that does not start with any is taken away.
proof fn lemma_start_padding_goes(before: Seq<char>, rest: Seq<char>)
    requires
        forall|i: int| 0 <= i < before.len() ==> is_white_space(#[trigger] before[i]),
        rest.len() > 0,
        !is_white_space(rest.first()),
    ensures
        trimmed_start(before + rest) == rest,
    decreases before.len(),
{
    if before.len() > 0 {
        let fewer = before.drop_first();
        assert(is_white_space(before[0]));
        assert forall|i: int| 0 <= i < fewer.len() implies is_white_space(
            #[trigger] fewer[i],
        ) by {
            assert(fewer[i] == before[i + 1]);
        }
        lemma_start_padding_goes(fewer, rest);
        assert((before + rest).drop_first() =~= fewer + rest);
    } else {
        assert(before + rest =~= rest);
    }
}

/// White space after a text that does not end with any is taken away.
proof fn lemma_end_padding_goes(rest: Seq<char>, after: Seq<char>)
    requires
        forall|i: int| 0 <= i < after.len() ==> is_white_space(#[trigger] after[i]),
        rest.len() > 0,
        !is_white_space(rest.last()),
    ensures
        trimmed_end(rest + after) == rest,
    decreases after.len(),
{
    if after.len() > 0 {
        let fewer = after.drop_last();
        assert(is_white_space(after[after.len() - 1]));
        assert forall|i: int| 0 <= i < fewer.len() implies is_white_space(
            #[trigger] fewer[i],
        ) by {
            assert(fewer[i] == after[i]);
        }
        lemma_end_padding_goes(rest, fewer);
        assert((rest + after).drop_last() =~= rest + fewer);
    } else {
        assert(rest + after =~= rest);
    }
}

} // verus!
