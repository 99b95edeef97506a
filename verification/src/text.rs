//! Inbound command text: free-form strings are tested for containment of
//! the four command literals; anything else in the text is ignored.

use vstd::prelude::*;

verus! {

use crate::player::CMD;

/// The pattern `p` occurs in `t` starting at position `i`.
pub open spec fn contains_at(t: Seq<char>, p: Seq<char>, i: int) -> bool {
    0 <= i && i + p.len() <= t.len() && t.subrange(i, i + p.len()) == p
}

/// The pattern `p` occurs somewhere in `t`.
pub open spec fn contains_seq(t: Seq<char>, p: Seq<char>) -> bool {
    exists|i: int| contains_at(t, p, i)
}

/// Substring containment, checked position by position.
pub fn contains_str(text: &str, pat: &str) -> (r: bool)
    ensures
        r == contains_seq(text@, pat@),
{
    let tl = text.unicode_len();
    let pl = pat.unicode_len();
    if pl > tl {
        proof {
            assert(forall|i: int| !contains_at(text@, pat@, i));
        }
        return false;
    }
    if pl == 0 {
        proof {
            assert(text@.subrange(0, 0) =~= pat@);
            assert(contains_at(text@, pat@, 0));
        }
        return true;
    }
    let mut i: usize = 0;
    while i <= tl - pl
        invariant
            1 <= pl <= tl,
            tl == text@.len(),
            pl == pat@.len(),
            0 <= i <= tl - pl + 1,
            forall|k: int| 0 <= k < i ==> !contains_at(text@, pat@, k),
        decreases tl - i,
    {
        let mut j: usize = 0;
        let mut matched = true;
        while j < pl
            invariant
                pl <= tl,
                tl == text@.len(),
                pl == pat@.len(),
                0 <= i <= tl - pl,
                0 <= j <= pl,
                matched ==> forall|k: int| 0 <= k < j ==> text@[i + k] == pat@[k],
                !matched ==> !contains_at(text@, pat@, i as int),
            decreases pl - j,
        {
            if text.get_char(i + j) != pat.get_char(j) {
                proof {
                    assert(text@.subrange(i as int, i + pl as int)[j as int] == text@[i + j]);
                }
                matched = false;
                j = pl;
            } else {
                j = j + 1;
            }
        }
        if matched {
            proof {
                assert(text@.subrange(i as int, i + pl as int) =~= pat@);
                assert(contains_at(text@, pat@, i as int));
            }
            return true;
        }
        i = i + 1;
    }
    proof {
        assert forall|k: int| !contains_at(text@, pat@, k) by {
            if 0 <= k <= tl - pl {
                assert(!contains_at(text@, pat@, k));
            }
        }
    }
    false
}

/// Zero or one command, depending on whether its literal was found.
pub open spec fn cmd_if(b: bool, c: CMD) -> Seq<CMD> {
    if b {
        seq![c]
    } else {
        Seq::empty()
    }
}

/// The commands a raw text encodes, in the fixed test order UP, LEFT,
/// RIGHT, SHOT; a text may encode several at once, and unrecognized text
/// encodes none.
pub open spec fn commands_of(s: Seq<char>) -> Seq<CMD> {
    cmd_if(contains_seq(s, "UP"@), CMD::UP) + cmd_if(contains_seq(s, "LEFT"@), CMD::LEFT) + cmd_if(
        contains_seq(s, "RIGHT"@),
        CMD::RIGHT,
    ) + cmd_if(contains_seq(s, "SHOT"@), CMD::SHOT)
}

/// Parses a raw text into its commands, in the fixed test order.
pub fn parse_commands(raw: &str) -> (r: Vec<CMD>)
    ensures
        r@ == commands_of(raw@),
        r@.len() <= 4,
{
    let mut cmds: Vec<CMD> = Vec::new();
    if contains_str(raw, "UP") {
        cmds.push(CMD::UP);
    }
    if contains_str(raw, "LEFT") {
        cmds.push(CMD::LEFT);
    }
    if contains_str(raw, "RIGHT") {
        cmds.push(CMD::RIGHT);
    }
    if contains_str(raw, "SHOT") {
        cmds.push(CMD::SHOT);
    }
    proof {
        assert(cmds@ =~= commands_of(raw@));
    }
    cmds
}

} // verus!
