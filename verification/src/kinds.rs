//! The three closed vocabularies of the store: memory pools, memory types
//! and link types, with their lowercase names and case-insensitive parsing.

use vstd::prelude::*;
use crate::text::{str_eq, to_lowercase, joined, unicode_lowercase, all_ascii, ascii_lower_char};

verus! {

/// A string result viewed as characters.
pub open spec fn err_view<T>(r: Result<T, String>) -> Result<T, Seq<char>> {
    match r {
        Ok(v) => Ok(v),
        Err(e) => Err(e@),
    }
}

/// ASCII lowercase of a character sequence.
pub open spec fn ascii_lower(s: Seq<char>) -> Seq<char> {
    s.map_values(|c: char| ascii_lower_char(c))
}

/// Memory pool: explicit (stated) or implicit (inferred) memories.
#[derive(Debug, Clone, Copy, PartialEq, Eq, Structural)]
pub enum MemoryPool {
    Explicit,
    Implicit,
}

/// The lowercase name of a pool.
pub open spec fn pool_name(p: MemoryPool) -> Seq<char> {
    match p {
        MemoryPool::Explicit => "explicit"@,
        MemoryPool::Implicit => "implicit"@,
    }
}

/// The pool whose name is exactly `s`, if any.
pub open spec fn pool_named(s: Seq<char>) -> Option<MemoryPool> {
    if s == "explicit"@ {
        Some(MemoryPool::Explicit)
    } else if s == "implicit"@ {
        Some(MemoryPool::Implicit)
    } else {
        None
    }
}

/// What parsing a pool from the text `s` gives: the pool named by the
/// lowercase of `s`, or the message `Invalid pool: <s>`.
pub open spec fn parse_pool(lower: Seq<char>, s: Seq<char>) -> Result<MemoryPool, Seq<char>> {
    match pool_named(lower) {
        Some(p) => Ok(p),
        None => Err("Invalid pool: "@ + s),
    }
}

impl MemoryPool {
    /// The pool's lowercase name.
    pub fn as_str(&self) -> (r: &'static str)
        ensures
            r@ == pool_name(*self),
    {
        match self {
            MemoryPool::Explicit => "explicit",
            MemoryPool::Implicit => "implicit",
        }
    }

    /// The pool whose name is exactly `lower`.
    pub fn from_lowercase(lower: &str) -> (r: Option<MemoryPool>)
        ensures
            r == pool_named(lower@),
    {
        if str_eq(lower, "explicit") {
            Some(MemoryPool::Explicit)
        } else if str_eq(lower, "implicit") {
            Some(MemoryPool::Implicit)
        } else {
            None
        }
    }

    /// Parses a pool name in any letter case.
    pub fn from_str(s: &str) -> (r: Result<MemoryPool, String>)
        ensures
            err_view(r) == parse_pool(unicode_lowercase(s@), s@),
            all_ascii(s@) ==> err_view(r) == parse_pool(ascii_lower(s@), s@),
    {
        let lower = to_lowercase(s);
        match MemoryPool::from_lowercase(lower.as_str()) {
            Some(p) => Ok(p),
            None => Err(joined("Invalid pool: ", s)),
        }
    }
}

/// Memory type.
#[derive(Debug, Clone, Copy, PartialEq, Eq, Structural)]
pub enum MemoryType {
    Fact,
    Event,
    Procedure,
    Concept,
    Preference,
    Context,
    Document,
    Image,
}

/// The lowercase name of a memory type.
pub open spec fn kind_name(t: MemoryType) -> Seq<char> {
    match t {
        MemoryType::Fact => "fact"@,
        MemoryType::Event => "event"@,
        MemoryType::Procedure => "procedure"@,
        MemoryType::Concept => "concept"@,
        MemoryType::Preference => "preference"@,
        MemoryType::Context => "context"@,
        MemoryType::Document => "document"@,
        MemoryType::Image => "image"@,
    }
}

/// The memory type whose name is exactly `s`, if any.
pub open spec fn type_named(s: Seq<char>) -> Option<MemoryType> {
    if s == "fact"@ {
        Some(MemoryType::Fact)
    } else if s == "event"@ {
        Some(MemoryType::Event)
    } else if s == "procedure"@ {
        Some(MemoryType::Procedure)
    } else if s == "concept"@ {
        Some(MemoryType::Concept)
    } else if s == "preference"@ {
        Some(MemoryType::Preference)
    } else if s == "context"@ {
        Some(MemoryType::Context)
    } else if s == "document"@ {
        Some(MemoryType::Document)
    } else if s == "image"@ {
        Some(MemoryType::Image)
    } else {
        None
    }
}

/// What parsing a memory type from the text `s` gives.
pub open spec fn parse_type(lower: Seq<char>, s: Seq<char>) -> Result<MemoryType, Seq<char>> {
    match type_named(lower) {
        Some(t) => Ok(t),
        None => Err("Invalid type: "@ + s),
    }
}

/// All memory types, in declaration order.
pub open spec fn all_memory_types() -> Seq<MemoryType> {
    seq![
        MemoryType::Fact,
        MemoryType::Event,
        MemoryType::Procedure,
        MemoryType::Concept,
        MemoryType::Preference,
        MemoryType::Context,
        MemoryType::Document,
        MemoryType::Image,
    ]
}

/// The position of a memory type in declaration order.
pub open spec fn type_index(t: MemoryType) -> int {
    match t {
        MemoryType::Fact => 0,
        MemoryType::Event => 1,
        MemoryType::Procedure => 2,
        MemoryType::Concept => 3,
        MemoryType::Preference => 4,
        MemoryType::Context => 5,
        MemoryType::Document => 6,
        MemoryType::Image => 7,
    }
}

impl MemoryType {
    /// The type's lowercase name.
    pub fn as_str(&self) -> (r: &'static str)
        ensures
            r@ == kind_name(*self),
    {
        match self {
            MemoryType::Fact => "fact",
            MemoryType::Event => "event",
            MemoryType::Procedure => "procedure",
            MemoryType::Concept => "concept",
            MemoryType::Preference => "preference",
            MemoryType::Context => "context",
            MemoryType::Document => "document",
            MemoryType::Image => "image",
        }
    }

    /// The type's position in declaration order.
    pub fn index(&self) -> (r: usize)
        ensures
            r == type_index(*self),
            all_memory_types()[r as int] == *self,
    {
        match self {
            MemoryType::Fact => 0,
            MemoryType::Event => 1,
            MemoryType::Procedure => 2,
            MemoryType::Concept => 3,
            MemoryType::Preference => 4,
            MemoryType::Context => 5,
            MemoryType::Document => 6,
            MemoryType::Image => 7,
        }
    }

    /// The memory type whose name is exactly `lower`.
    pub fn from_lowercase(lower: &str) -> (r: Option<MemoryType>)
        ensures
            r == type_named(lower@),
    {
        if str_eq(lower, "fact") {
            Some(MemoryType::Fact)
        } else if str_eq(lower, "event") {
            Some(MemoryType::Event)
        } else if str_eq(lower, "procedure") {
            Some(MemoryType::Procedure)
        } else if str_eq(lower, "concept") {
            Some(MemoryType::Concept)
        } else if str_eq(lower, "preference") {
            Some(MemoryType::Preference)
        } else if str_eq(lower, "context") {
            Some(MemoryType::Context)
        } else if str_eq(lower, "document") {
            Some(MemoryType::Document)
        } else if str_eq(lower, "image") {
            Some(MemoryType::Image)
        } else {
            None
        }
    }

    /// Parses a memory type name in any letter case.
    pub fn from_str(s: &str) -> (r: Result<MemoryType, String>)
        ensures
            err_view(r) == parse_type(unicode_lowercase(s@), s@),
            all_ascii(s@) ==> err_view(r) == parse_type(ascii_lower(s@), s@),
    {
        let lower = to_lowercase(s);
        match MemoryType::from_lowercase(lower.as_str()) {
            Some(t) => Ok(t),
            None => Err(joined("Invalid type: ", s)),
        }
    }
}

/// Kind of a link between two memories.
#[derive(Debug, Clone, Copy, PartialEq, Eq, Structural)]
pub enum LinkType {
    Causes,
    Related,
    Contradicts,
    Specializes,
    DerivedFrom,
    Similar,
    Follows,
    Alternative,
}

/// The snake-case name of a link type.
pub open spec fn link_name(l: LinkType) -> Seq<char> {
    match l {
        LinkType::Causes => "causes"@,
        LinkType::Related => "related"@,
        LinkType::Contradicts => "contradicts"@,
        LinkType::Specializes => "specializes"@,
        LinkType::DerivedFrom => "derived_from"@,
        LinkType::Similar => "similar"@,
        LinkType::Follows => "follows"@,
        LinkType::Alternative => "alternative"@,
    }
}

/// The link type whose name is exactly `s`, if any.
pub open spec fn link_named(s: Seq<char>) -> Option<LinkType> {
    if s == "causes"@ {
        Some(LinkType::Causes)
    } else if s == "related"@ {
        Some(LinkType::Related)
    } else if s == "contradicts"@ {
        Some(LinkType::Contradicts)
    } else if s == "specializes"@ {
        Some(LinkType::Specializes)
    } else if s == "derived_from"@ {
        Some(LinkType::DerivedFrom)
    } else if s == "similar"@ {
        Some(LinkType::Similar)
    } else if s == "follows"@ {
        Some(LinkType::Follows)
    } else if s == "alternative"@ {
        Some(LinkType::Alternative)
    } else {
        None
    }
}

/// What parsing a link type from the text `s` gives.
pub open spec fn parse_link(lower: Seq<char>, s: Seq<char>) -> Result<LinkType, Seq<char>> {
    match link_named(lower) {
        Some(l) => Ok(l),
        None => Err("Invalid link type: "@ + s),
    }
}

impl LinkType {
    /// The link type's snake-case name.
    pub fn as_str(&self) -> (r: &'static str)
        ensures
            r@ == link_name(*self),
    {
        match self {
            LinkType::Causes => "causes",
            LinkType::Related => "related",
            LinkType::Contradicts => "contradicts",
            LinkType::Specializes => "specializes",
            LinkType::DerivedFrom => "derived_from",
            LinkType::Similar => "similar",
            LinkType::Follows => "follows",
            LinkType::Alternative => "alternative",
        }
    }

    /// The link type whose name is exactly `lower`.
    pub fn from_lowercase(lower: &str) -> (r: Option<LinkType>)
        ensures
            r == link_named(lower@),
    {
        if str_eq(lower, "causes") {
            Some(LinkType::Causes)
        } else if str_eq(lower, "related") {
            Some(LinkType::Related)
        } else if str_eq(lower, "contradicts") {
            Some(LinkType::Contradicts)
        } else if str_eq(lower, "specializes") {
            Some(LinkType::Specializes)
        } else if str_eq(lower, "derived_from") {
            Some(LinkType::DerivedFrom)
        } else if str_eq(lower, "similar") {
            Some(LinkType::Similar)
        } else if str_eq(lower, "follows") {
            Some(LinkType::Follows)
        } else if str_eq(lower, "alternative") {
            Some(LinkType::Alternative)
        } else {
            None
        }
    }

    /// Parses a link type name in any letter case.
    pub fn from_str(s: &str) -> (r: Result<LinkType, String>)
        ensures
            err_view(r) == parse_link(unicode_lowercase(s@), s@),
            all_ascii(s@) ==> err_view(r) == parse_link(ascii_lower(s@), s@),
    {
        let lower = to_lowercase(s);
        match LinkType::from_lowercase(lower.as_str()) {
            Some(l) => Ok(l),
            None => Err(joined("Invalid link type: ", s)),
        }
    }
}

/// Law: a pool's name is lowercase ASCII and parses back to the same pool,
/// so `MemoryPool::from_str(p.as_str())` is `Ok(p)`.
pub proof fn lemma_pool_name_round_trip(p: MemoryPool)
    ensures
        all_ascii(pool_name(p)),
        ascii_lower(pool_name(p)) == pool_name(p),
        parse_pool(ascii_lower(pool_name(p)), pool_name(p)) == Ok::<MemoryPool, Seq<char>>(p),
{
    reveal_strlit("explicit");
    reveal_strlit("implicit");
    assert(ascii_lower(pool_name(p)) =~= pool_name(p));
    assert("explicit"@[0] != "implicit"@[0]);
}

/// Law: a memory type's name is lowercase ASCII and parses back to the same
/// type, so `MemoryType::from_str(t.as_str())` is `Ok(t)`.
pub proof fn lemma_type_name_round_trip(t: MemoryType)
    ensures
        all_ascii(kind_name(t)),
        ascii_lower(kind_name(t)) == kind_name(t),
        parse_type(ascii_lower(kind_name(t)), kind_name(t)) == Ok::<MemoryType, Seq<char>>(t),
{
    reveal_strlit("fact");
    reveal_strlit("event");
    reveal_strlit("procedure");
    reveal_strlit("concept");
    reveal_strlit("preference");
    reveal_strlit("context");
    reveal_strlit("document");
    reveal_strlit("image");
    assert(ascii_lower(kind_name(t)) =~= kind_name(t));
    assert("event"@[0] != "image"@[0]);
    assert("concept"@[3] != "context"@[3]);
}

/// Law: a link type's name is lowercase ASCII and parses back to the same
/// link type, so `LinkType::from_str(l.as_str())` is `Ok(l)`.
pub proof fn lemma_link_name_round_trip(l: LinkType)
    ensures
        all_ascii(link_name(l)),
        ascii_lower(link_name(l)) == link_name(l),
        parse_link(ascii_lower(link_name(l)), link_name(l)) == Ok::<LinkType, Seq<char>>(l),
{
    reveal_strlit("causes");
    reveal_strlit("related");
    reveal_strlit("contradicts");
    reveal_strlit("specializes");
    reveal_strlit("derived_from");
    reveal_strlit("similar");
    reveal_strlit("follows");
    reveal_strlit("alternative");
    assert(ascii_lower(link_name(l)) =~= link_name(l));
    assert("related"@[0] != "similar"@[0] && "related"@[0] != "follows"@[0] && "similar"@[0] != "follows"@[0]);
    assert("contradicts"@[0] != "specializes"@[0] && "contradicts"@[0] != "alternative"@[0]);
    assert("specializes"@[0] != "alternative"@[0]);
}

} // verus!
