//! The contexts in which a form may be used, and the tags that name them.

use crate::text::str_eq;
use vstd::prelude::*;

verus! {

/// A grammatical or compounding context in which a form may be used.
#[derive(Debug, Clone, Copy, PartialEq, Eq)]
pub enum Usage {
    AdjDist1,
    AdjDist2,
    AdjDist3,
    AdjDist4,
    AdjDist5,
    AdjDist6,
    AdjDist7,
    FrontCompoundAdj,
    FrontCompoundNounPlur,
    FrontCompoundNounSing,
    FrontCompoundPrefix,
    OfNounPlur,
    OfNounSing,
    RearCompoundAdj,
    RearCompoundNounPlur,
    RearCompoundNounSing,
    StandardVerb,
    TheCompoundAdj,
    TheCompoundNounPlur,
    TheCompoundNounSing,
    TheCompoundPrefix,
    TheNounPlur,
    TheNounSing,
}

/// The usage that a tag names, if it names one.
pub open spec fn usage_of_tag(tag: Seq<char>) -> Option<Usage> {
    if tag == "[ADJ_DIST:1]"@ {
        Some(Usage::AdjDist1)
    } else if tag == "[ADJ_DIST:2]"@ {
        Some(Usage::AdjDist2)
    } else if tag == "[ADJ_DIST:3]"@ {
        Some(Usage::AdjDist3)
    } else if tag == "[ADJ_DIST:4]"@ {
        Some(Usage::AdjDist4)
    } else if tag == "[ADJ_DIST:5]"@ {
        Some(Usage::AdjDist5)
    } else if tag == "[ADJ_DIST:6]"@ {
        Some(Usage::AdjDist6)
    } else if tag == "[ADJ_DIST:7]"@ {
        Some(Usage::AdjDist7)
    } else if tag == "[FRONT_COMPOUND_ADJ]"@ {
        Some(Usage::FrontCompoundAdj)
    } else if tag == "[FRONT_COMPOUND_NOUN_PLUR]"@ {
        Some(Usage::FrontCompoundNounPlur)
    } else if tag == "[FRONT_COMPOUND_NOUN_SING]"@ {
        Some(Usage::FrontCompoundNounSing)
    } else if tag == "[FRONT_COMPOUND_PREFIX]"@ {
        Some(Usage::FrontCompoundPrefix)
    } else if tag == "[OF_NOUN_PLUR]"@ {
        Some(Usage::OfNounPlur)
    } else if tag == "[OF_NOUN_SING]"@ {
        Some(Usage::OfNounSing)
    } else if tag == "[REAR_COMPOUND_ADJ]"@ {
        Some(Usage::RearCompoundAdj)
    } else if tag == "[REAR_COMPOUND_NOUN_PLUR]"@ {
        Some(Usage::RearCompoundNounPlur)
    } else if tag == "[REAR_COMPOUND_NOUN_SING]"@ {
        Some(Usage::RearCompoundNounSing)
    } else if tag == "[STANDARD_VERB]"@ {
        Some(Usage::StandardVerb)
    } else if tag == "[THE_COMPOUND_ADJ]"@ {
        Some(Usage::TheCompoundAdj)
    } else if tag == "[THE_COMPOUND_NOUN_PLUR]"@ {
        Some(Usage::TheCompoundNounPlur)
    } else if tag == "[THE_COMPOUND_NOUN_SING]"@ {
        Some(Usage::TheCompoundNounSing)
    } else if tag == "[THE_COMPOUND_PREFIX]"@ {
        Some(Usage::TheCompoundPrefix)
    } else if tag == "[THE_NOUN_PLUR]"@ {
        Some(Usage::TheNounPlur)
    } else if tag == "[THE_NOUN_SING]"@ {
        Some(Usage::TheNounSing)
    } else {
        None
    }
}

impl Usage {
    /// The usage that `tag` names, or `None` for a tag outside the table.
    pub fn from_tag(tag: &str) -> (r: Option<Usage>)
        ensures
            r == usage_of_tag(tag@),
    {
        if str_eq(tag, "[ADJ_DIST:1]") {
            Some(Usage::AdjDist1)
        } else if str_eq(tag, "[ADJ_DIST:2]") {
            Some(Usage::AdjDist2)
        } else if str_eq(tag, "[ADJ_DIST:3]") {
            Some(Usage::AdjDist3)
        } else if str_eq(tag, "[ADJ_DIST:4]") {
            Some(Usage::AdjDist4)
        } else if str_eq(tag, "[ADJ_DIST:5]") {
            Some(Usage::AdjDist5)
        } else if str_eq(tag, "[ADJ_DIST:6]") {
            Some(Usage::AdjDist6)
        } else if str_eq(tag, "[ADJ_DIST:7]") {
            Some(Usage::AdjDist7)
        } else if str_eq(tag, "[FRONT_COMPOUND_ADJ]") {
            Some(Usage::FrontCompoundAdj)
        } else if str_eq(tag, "[FRONT_COMPOUND_NOUN_PLUR]") {
            Some(Usage::FrontCompoundNounPlur)
        } else if str_eq(tag, "[FRONT_COMPOUND_NOUN_SING]") {
            Some(Usage::FrontCompoundNounSing)
        } else if str_eq(tag, "[FRONT_COMPOUND_PREFIX]") {
            Some(Usage::FrontCompoundPrefix)
        } else if str_eq(tag, "[OF_NOUN_PLUR]") {
            Some(Usage::OfNounPlur)
        } else if str_eq(tag, "[OF_NOUN_SING]") {
            Some(Usage::OfNounSing)
        } else if str_eq(tag, "[REAR_COMPOUND_ADJ]") {
            Some(Usage::RearCompoundAdj)
        } else if str_eq(tag, "[REAR_COMPOUND_NOUN_PLUR]") {
            Some(Usage::RearCompoundNounPlur)
        } else if str_eq(tag, "[REAR_COMPOUND_NOUN_SING]") {
            Some(Usage::RearCompoundNounSing)
        } else if str_eq(tag, "[STANDARD_VERB]") {
            Some(Usage::StandardVerb)
        } else if str_eq(tag, "[THE_COMPOUND_ADJ]") {
            Some(Usage::TheCompoundAdj)
        } else if str_eq(tag, "[THE_COMPOUND_NOUN_PLUR]") {
            Some(Usage::TheCompoundNounPlur)
        } else if str_eq(tag, "[THE_COMPOUND_NOUN_SING]") {
            Some(Usage::TheCompoundNounSing)
        } else if str_eq(tag, "[THE_COMPOUND_PREFIX]") {
            Some(Usage::TheCompoundPrefix)
        } else if str_eq(tag, "[THE_NOUN_PLUR]") {
            Some(Usage::TheNounPlur)
        } else if str_eq(tag, "[THE_NOUN_SING]") {
            Some(Usage::TheNounSing)
        } else {
            None
        }
    }
}

/// The tag that names usage `u`.
pub open spec fn tag_of(u: Usage) -> Seq<char> {
    match u {
        Usage::AdjDist1 => "[ADJ_DIST:1]"@,
        Usage::AdjDist2 => "[ADJ_DIST:2]"@,
        Usage::AdjDist3 => "[ADJ_DIST:3]"@,
        Usage::AdjDist4 => "[ADJ_DIST:4]"@,
        Usage::AdjDist5 => "[ADJ_DIST:5]"@,
        Usage::AdjDist6 => "[ADJ_DIST:6]"@,
        Usage::AdjDist7 => "[ADJ_DIST:7]"@,
        Usage::FrontCompoundAdj => "[FRONT_COMPOUND_ADJ]"@,
        Usage::FrontCompoundNounPlur => "[FRONT_COMPOUND_NOUN_PLUR]"@,
        Usage::FrontCompoundNounSing => "[FRONT_COMPOUND_NOUN_SING]"@,
        Usage::FrontCompoundPrefix => "[FRONT_COMPOUND_PREFIX]"@,
        Usage::OfNounPlur => "[OF_NOUN_PLUR]"@,
        Usage::OfNounSing => "[OF_NOUN_SING]"@,
        Usage::RearCompoundAdj => "[REAR_COMPOUND_ADJ]"@,
        Usage::RearCompoundNounPlur => "[REAR_COMPOUND_NOUN_PLUR]"@,
        Usage::RearCompoundNounSing => "[REAR_COMPOUND_NOUN_SING]"@,
        Usage::StandardVerb => "[STANDARD_VERB]"@,
        Usage::TheCompoundAdj => "[THE_COMPOUND_ADJ]"@,
        Usage::TheCompoundNounPlur => "[THE_COMPOUND_NOUN_PLUR]"@,
        Usage::TheCompoundNounSing => "[THE_COMPOUND_NOUN_SING]"@,
        Usage::TheCompoundPrefix => "[THE_COMPOUND_PREFIX]"@,
        Usage::TheNounPlur => "[THE_NOUN_PLUR]"@,
        Usage::TheNounSing => "[THE_NOUN_SING]"@,
    }
}

/// Every usage has its tag in the table, and no two usages share a tag. A
/// tag begins with an opening bracket and ends with a closing one.
pub proof fn lemma_tag_names_usage(u: Usage)
    ensures
        usage_of_tag(tag_of(u)) == Some(u),
        tag_of(u).len() > 0,
        tag_of(u)[0] == '[',
        tag_of(u).last() == ']',
{
    reveal_strlit("[ADJ_DIST:1]");
    reveal_strlit("[ADJ_DIST:2]");
    reveal_strlit("[ADJ_DIST:3]");
    reveal_strlit("[ADJ_DIST:4]");
    reveal_strlit("[ADJ_DIST:5]");
    reveal_strlit("[ADJ_DIST:6]");
    reveal_strlit("[ADJ_DIST:7]");
    reveal_strlit("[FRONT_COMPOUND_ADJ]");
    reveal_strlit("[FRONT_COMPOUND_NOUN_PLUR]");
    reveal_strlit("[FRONT_COMPOUND_NOUN_SING]");
    reveal_strlit("[FRONT_COMPOUND_PREFIX]");
    reveal_strlit("[OF_NOUN_PLUR]");
    reveal_strlit("[OF_NOUN_SING]");
    reveal_strlit("[REAR_COMPOUND_ADJ]");
    reveal_strlit("[REAR_COMPOUND_NOUN_PLUR]");
    reveal_strlit("[REAR_COMPOUND_NOUN_SING]");
    reveal_strlit("[STANDARD_VERB]");
    reveal_strlit("[THE_COMPOUND_ADJ]");
    reveal_strlit("[THE_COMPOUND_NOUN_PLUR]");
    reveal_strlit("[THE_COMPOUND_NOUN_SING]");
    reveal_strlit("[THE_COMPOUND_PREFIX]");
    reveal_strlit("[THE_NOUN_PLUR]");
    reveal_strlit("[THE_NOUN_SING]");
    assert("[ADJ_DIST:1]"@.len() == 12);
    assert("[ADJ_DIST:2]"@.len() == 12);
    assert("[ADJ_DIST:3]"@.len() == 12);
    assert("[ADJ_DIST:4]"@.len() == 12);
    assert("[ADJ_DIST:5]"@.len() == 12);
    assert("[ADJ_DIST:6]"@.len() == 12);
    assert("[ADJ_DIST:7]"@.len() == 12);
    assert("[FRONT_COMPOUND_ADJ]"@.len() == 20);
    assert("[FRONT_COMPOUND_NOUN_PLUR]"@.len() == 26);
    assert("[FRONT_COMPOUND_NOUN_SING]"@.len() == 26);
    assert("[FRONT_COMPOUND_PREFIX]"@.len() == 23);
    assert("[OF_NOUN_PLUR]"@.len() == 14);
    assert("[OF_NOUN_SING]"@.len() == 14);
    assert("[REAR_COMPOUND_ADJ]"@.len() == 19);
    assert("[REAR_COMPOUND_NOUN_PLUR]"@.len() == 25);
    assert("[REAR_COMPOUND_NOUN_SING]"@.len() == 25);
    assert("[STANDARD_VERB]"@.len() == 15);
    assert("[THE_COMPOUND_ADJ]"@.len() == 18);
    assert("[THE_COMPOUND_NOUN_PLUR]"@.len() == 24);
    assert("[THE_COMPOUND_NOUN_SING]"@.len() == 24);
    assert("[THE_COMPOUND_PREFIX]"@.len() == 21);
    assert("[THE_NOUN_PLUR]"@.len() == 15);
    assert("[THE_NOUN_SING]"@.len() == 15);
    assert("[ADJ_DIST:1]"@[10] != "[ADJ_DIST:2]"@[10]);
    assert("[ADJ_DIST:1]"@[10] != "[ADJ_DIST:3]"@[10]);
    assert("[ADJ_DIST:2]"@[10] != "[ADJ_DIST:3]"@[10]);
    assert("[ADJ_DIST:1]"@[10] != "[ADJ_DIST:4]"@[10]);
    assert("[ADJ_DIST:2]"@[10] != "[ADJ_DIST:4]"@[10]);
    assert("[ADJ_DIST:3]"@[10] != "[ADJ_DIST:4]"@[10]);
    assert("[ADJ_DIST:1]"@[10] != "[ADJ_DIST:5]"@[10]);
    assert("[ADJ_DIST:2]"@[10] != "[ADJ_DIST:5]"@[10]);
    assert("[ADJ_DIST:3]"@[10] != "[ADJ_DIST:5]"@[10]);
    assert("[ADJ_DIST:4]"@[10] != "[ADJ_DIST:5]"@[10]);
    assert("[ADJ_DIST:1]"@[10] != "[ADJ_DIST:6]"@[10]);
    assert("[ADJ_DIST:2]"@[10] != "[ADJ_DIST:6]"@[10]);
    assert("[ADJ_DIST:3]"@[10] != "[ADJ_DIST:6]"@[10]);
    assert("[ADJ_DIST:4]"@[10] != "[ADJ_DIST:6]"@[10]);
    assert("[ADJ_DIST:5]"@[10] != "[ADJ_DIST:6]"@[10]);
    assert("[ADJ_DIST:1]"@[10] != "[ADJ_DIST:7]"@[10]);
    assert("[ADJ_DIST:2]"@[10] != "[ADJ_DIST:7]"@[10]);
    assert("[ADJ_DIST:3]"@[10] != "[ADJ_DIST:7]"@[10]);
    assert("[ADJ_DIST:4]"@[10] != "[ADJ_DIST:7]"@[10]);
    assert("[ADJ_DIST:5]"@[10] != "[ADJ_DIST:7]"@[10]);
    assert("[ADJ_DIST:6]"@[10] != "[ADJ_DIST:7]"@[10]);
    assert("[FRONT_COMPOUND_NOUN_PLUR]"@[21] != "[FRONT_COMPOUND_NOUN_SING]"@[21]);
    assert("[OF_NOUN_PLUR]"@[9] != "[OF_NOUN_SING]"@[9]);
    assert("[REAR_COMPOUND_NOUN_PLUR]"@[20] != "[REAR_COMPOUND_NOUN_SING]"@[20]);
    assert("[THE_COMPOUND_NOUN_PLUR]"@[19] != "[THE_COMPOUND_NOUN_SING]"@[19]);
    assert("[STANDARD_VERB]"@[1] != "[THE_NOUN_PLUR]"@[1]);
    assert("[STANDARD_VERB]"@[1] != "[THE_NOUN_SING]"@[1]);
    assert("[THE_NOUN_PLUR]"@[10] != "[THE_NOUN_SING]"@[10]);
}

} // verus!
