//! Part of speech tagging for the natural language module.

use vstd::prelude::*;
use crate::text::str_eq;

verus! {

/// returns the number of codes for "part of speech" encodings
pub fn pos_ret_codes() -> (res: i64)
    ensures
        res == 18,
{
    18
}

/// the code of a part of speech tag
pub open spec fn pos_code(tag: Seq<char>) -> Option<i64> {
    if tag == "VBZ"@ {
        Some(0i64)
    } else if tag == "JJ"@ {
        Some(1i64)
    } else if tag == "NNP"@ {
        Some(2i64)
    } else if tag == "CC"@ {
        Some(3i64)
    } else if tag == ","@ {
        Some(4i64)
    } else if tag == "NN"@ {
        Some(5i64)
    } else if tag == "VBP"@ {
        Some(6i64)
    } else if tag == "DT"@ {
        Some(8i64)
    } else if tag == "PRT_TO"@ {
        Some(9i64)
    } else if tag == "VB"@ {
        Some(10i64)
    } else if tag == "VBT"@ {
        Some(11i64)
    } else if tag == "WP"@ {
        Some(12i64)
    } else if tag == "?"@ {
        Some(13i64)
    } else if tag == "VBG"@ {
        Some(14i64)
    } else if tag == "IN"@ {
        Some(15i64)
    } else if tag == "PRP"@ {
        Some(16i64)
    } else if tag == "MD"@ {
        Some(17i64)
    } else {
        None
    }
}

/// the code of each tag, then the stop code 7
pub open spec fn pos_codes(cls: Seq<String>) -> Seq<i64> {
    cls.map_values(|c: String| pos_code(c@).unwrap()).push(7)
}

/// part of speech prototype: the codes of the tags, then the stop code
pub fn prot_pos0(cls: Vec<String>) -> (res: Vec<i64>)
    requires
        forall|i: int| 0 <= i < cls.len() ==> pos_code(#[trigger] cls@[i]@) is Some,
    ensures
        res@ == pos_codes(cls@),
{
    let mut cls2: Vec<i64> = Vec::new();
    let mut i: usize = 0;
    while i < cls.len()
        invariant
            i <= cls.len(),
            forall|j: int| 0 <= j < cls.len() ==> pos_code(#[trigger] cls@[j]@) is Some,
            cls2@ == cls@.take(i as int).map_values(|c: String| pos_code(c@).unwrap()),
        decreases cls.len() - i,
    {
        let i_cls = cls[i].as_str();
        assert(pos_code(cls@[i as int]@) is Some);
        if str_eq(i_cls, "VBZ") {
            cls2.push(0);
        } else if str_eq(i_cls, "JJ") {
            cls2.push(1);
        } else if str_eq(i_cls, "NNP") {
            cls2.push(2);
        } else if str_eq(i_cls, "CC") {
            cls2.push(3);
        } else if str_eq(i_cls, ",") {
            cls2.push(4);
        } else if str_eq(i_cls, "NN") {
            cls2.push(5);
        } else if str_eq(i_cls, "VBP") {
            cls2.push(6);
        } else if str_eq(i_cls, "DT") {
            cls2.push(8);
        } else if str_eq(i_cls, "PRT_TO") {
            cls2.push(9);
        } else if str_eq(i_cls, "VB") {
            cls2.push(10);
        } else if str_eq(i_cls, "VBT") {
            cls2.push(11);
        } else if str_eq(i_cls, "WP") {
            cls2.push(12);
        } else if str_eq(i_cls, "?") {
            cls2.push(13);
        } else if str_eq(i_cls, "VBG") {
            cls2.push(14);
        } else if str_eq(i_cls, "IN") {
            cls2.push(15);
        } else if str_eq(i_cls, "PRP") {
            cls2.push(16);
        } else if str_eq(i_cls, "MD") {
            cls2.push(17);
        } else {
            // every tag is known
        }
        i += 1;
        assert(cls2@ =~= cls@.take(i as int).map_values(|c: String| pos_code(c@).unwrap()));
    }
    assert(cls@.take(cls.len() as int) =~= cls@);
    cls2.push(7); // STOP
    cls2
}

/// the part of speech tag of a known word
pub open spec fn word_pos(word: Seq<char>) -> Option<Seq<char>> {
    if word == "Tom"@ {
        Some("NNP"@)
    } else if word == "Tim"@ {
        Some("NNP"@)
    } else if word == "John"@ {
        Some("NNP"@)
    } else if word == "is"@ {
        Some("VBZ"@)
    } else if word == "can"@ {
        Some("MD"@)
    } else if word == "are"@ {
        Some("VBP"@)
    } else if word == "?"@ {
        Some("?"@)
    } else if word == "to"@ {
        Some("PRT_TO"@)
    } else if word == "of"@ {
        Some("IN"@)
    } else if word == "the"@ {
        Some("DT"@)
    } else if word == "what"@ {
        Some("WP"@)
    } else if word == "and"@ {
        Some("CC"@)
    } else if word == "fast"@ {
        Some("JJ"@)
    } else if word == "fat"@ {
        Some("JJ"@)
    } else if word == "hunting"@ {
        Some("NN"@)
    } else if word == "purpose"@ {
        Some("NN"@)
    } else if word == "food"@ {
        Some("NN"@)
    } else {
        None
    }
}

/// convert words to part of speech
pub fn conv_tokens_to_poss(tokens: &[String]) -> (res: Vec<String>)
    requires
        forall|i: int| 0 <= i < tokens@.len() ==> word_pos(#[trigger] tokens@[i]@) is Some,
    ensures
        res@.len() == tokens@.len(),
        forall|i: int| 0 <= i < tokens@.len() ==> Some(#[trigger] res@[i]@) == word_pos(tokens@[i]@),
{
    let mut res: Vec<String> = Vec::new();
    let mut i: usize = 0;
    while i < tokens.len()
        invariant
            i <= tokens@.len(),
            forall|j: int| 0 <= j < tokens@.len() ==> word_pos(#[trigger] tokens@[j]@) is Some,
            res@.len() == i,
            forall|j: int| 0 <= j < i ==> Some(#[trigger] res@[j]@) == word_pos(tokens@[j]@),
        decreases tokens@.len() - i,
    {
        let i_token = tokens[i].as_str();
        assert(word_pos(tokens@[i as int]@) is Some);
        if str_eq(i_token, "Tom") {
            res.push(String::from_str("NNP"));
        } else if str_eq(i_token, "Tim") {
            res.push(String::from_str("NNP"));
        } else if str_eq(i_token, "John") {
            res.push(String::from_str("NNP"));
        } else if str_eq(i_token, "is") {
            res.push(String::from_str("VBZ"));
        } else if str_eq(i_token, "can") {
            res.push(String::from_str("MD"));
        } else if str_eq(i_token, "are") {
            res.push(String::from_str("VBP"));
        } else if str_eq(i_token, "?") {
            res.push(String::from_str("?"));
        } else if str_eq(i_token, "to") {
            res.push(String::from_str("PRT_TO"));
        } else if str_eq(i_token, "of") {
            res.push(String::from_str("IN"));
        } else if str_eq(i_token, "the") {
            res.push(String::from_str("DT"));
        } else if str_eq(i_token, "what") {
            res.push(String::from_str("WP"));
        } else if str_eq(i_token, "and") {
            res.push(String::from_str("CC"));
        } else if str_eq(i_token, "fast") {
            res.push(String::from_str("JJ"));
        } else if str_eq(i_token, "fat") {
            res.push(String::from_str("JJ"));
        } else if str_eq(i_token, "hunting") {
            res.push(String::from_str("NN"));
        } else if str_eq(i_token, "purpose") {
            res.push(String::from_str("NN"));
        } else if str_eq(i_token, "food") {
            res.push(String::from_str("NN"));
        } else {
            // every word is known
        }
        i += 1;
    }
    res
}

} // verus!
