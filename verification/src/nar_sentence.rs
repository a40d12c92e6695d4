//! Punctuation and usage bookkeeping of sentences.

use vstd::prelude::*;
use crate::term::{Term, convTermToStr, printable, term_str};

verus! {

/// punctuation of a sentence
#[derive(PartialEq, Eq, Structural, Copy, Clone, Debug)]
pub enum EnumPunctation {
    /// `.`
    JUGEMENT,
    /// `?`
    QUESTION,
    /// `!`
    GOAL,
}

/// when a sentence was last used, and how often
#[derive(Clone, Copy)]
pub struct Usage {
    /// time
    pub lastUsed: i64,
    pub useCount: i64,
}

/// records a use of the sentence at `currentTime`
pub fn usageUpdate(usage: &mut Usage, currentTime: i64)
    requires
        old(usage).useCount < i64::MAX,
    ensures
        final(usage).lastUsed == currentTime,
        final(usage).useCount == old(usage).useCount + 1,
{
    usage.lastUsed = currentTime;
    usage.useCount += 1;
}

/// the text of a punctuation
pub open spec fn punct_str(p: EnumPunctation) -> Seq<char> {
    match p {
        EnumPunctation::QUESTION => "?"@,
        EnumPunctation::JUGEMENT => "."@,
        EnumPunctation::GOAL => "!"@,
    }
}

/// convert only term and punctation to string; the text of the truth value,
/// where it is given, follows after a space, except for a question
pub fn convSentenceTermPunctToStr(term: &Term, punct: EnumPunctation, tvText: &Option<String>) -> (res: String)
    requires
        printable(term@),
    ensures
        res@ == term_str(term@) + punct_str(punct) + match tvText {
            Some(tv) => if punct != EnumPunctation::QUESTION { " "@ + tv@ } else { Seq::empty() },
            None => Seq::empty(),
        },
{
    proof {
        reveal_strlit("?");
        reveal_strlit(".");
        reveal_strlit("!");
        reveal_strlit(" ");
    }
    let p = match punct {
        EnumPunctation::QUESTION => "?",
        EnumPunctation::JUGEMENT => ".",
        EnumPunctation::GOAL => "!",
    };
    let mut res = convTermToStr(term);
    res.append(p);
    match tvText {
        Some(tv) => {
            if punct != EnumPunctation::QUESTION {
                res.append(" ");
                res.append(tv.as_str());
            }
        },
        None => {},
    }
    res
}

} // verus!
