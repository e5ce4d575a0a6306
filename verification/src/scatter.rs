//! The statement types of the scatter chart.

use vstd::prelude::*;
use crate::text::{starts_with, str_starts_with, trim};

verus! {

/// The statement type that a log body begins with.
#[derive(Debug, Clone, Copy, PartialEq, Eq, Structural)]
pub enum SqlType {
    INS,
    DEL,
    UPD,
    SEL,
    DDL,
}

/// The type tag that the trimmed body `t` begins with.
pub open spec fn spec_sql_type(t: Seq<char>) -> Option<SqlType> {
    if starts_with(t, "[INS]"@) {
        Some(SqlType::INS)
    } else if starts_with(t, "[DEL]"@) {
        Some(SqlType::DEL)
    } else if starts_with(t, "[UPD]"@) {
        Some(SqlType::UPD)
    } else if starts_with(t, "[SEL]"@) {
        Some(SqlType::SEL)
    } else if starts_with(t, "[DDL]"@) {
        Some(SqlType::DDL)
    } else {
        None
    }
}

impl SqlType {
    /// The type of a statement body from its tag (`[INS]`, `[DEL]`,
    /// `[UPD]`, `[SEL]`, `[DDL]`) after surrounding white space.
    pub fn from_body(body: &str) -> (r: Option<SqlType>)
        ensures
            r == spec_sql_type(trim(body@)),
    {
        let t = crate::text::trimmed(body);
        if str_starts_with(t.as_str(), "[INS]") {
            Some(SqlType::INS)
        } else if str_starts_with(t.as_str(), "[DEL]") {
            Some(SqlType::DEL)
        } else if str_starts_with(t.as_str(), "[UPD]") {
            Some(SqlType::UPD)
        } else if str_starts_with(t.as_str(), "[SEL]") {
            Some(SqlType::SEL)
        } else if str_starts_with(t.as_str(), "[DDL]") {
            Some(SqlType::DDL)
        } else {
            None
        }
    }
}

} // verus!
