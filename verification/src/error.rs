//! Errors reported by the bilibili API and how the workflow classifies them.

use vstd::prelude::*;
use crate::text::str_eq;

verus! {

/// An error answered by the bilibili API.
#[derive(Debug, Clone)]
pub enum BiliError {
    /// The response has no `code` field; holds the full response.
    InvalidResponse(String),
    /// The API answered a non-zero code.
    ErrorResponse { code: i64, message: Option<String>, response: String },
    /// The server applied risk control; holds the full response.
    RiskControlOccurred(String),
    /// An HTTP status code that is not a success, with its reason.
    InvalidStatusCode(u16, &'static str),
    /// No video streams were offered (may indicate risk control).
    VideoStreamsEmpty,
}

/// Why an API answer could not be read.
#[derive(Debug, Clone, PartialEq)]
pub enum FeedError {
    /// A publish time that is neither an integer nor an integer string, or
    /// that no instant can hold.
    InvalidTimestamp,
    /// A page requested at this offset held no dynamics.
    NoDynamicsAtOffset(String),
    /// A page without `has_more` or `offset`.
    MissingPaging,
    /// A comment without an integer `rpid`.
    InvalidRpid,
    /// A comment whose `ctime` no instant can hold.
    InvalidCtime,
}

impl BiliError {
    /// Risk control, an empty stream list, or a failing HTTP status.
    pub open spec fn risk_control_related(&self) -> bool {
        match *self {
            BiliError::RiskControlOccurred(_) => true,
            BiliError::VideoStreamsEmpty => true,
            BiliError::InvalidStatusCode(_, _) => true,
            _ => false,
        }
    }

    /// A transient service error: code -503 with message "服务暂不可用", or
    /// code -504 with message "服务调用超时".
    pub open spec fn common_error(&self) -> bool {
        match *self {
            BiliError::ErrorResponse { code, message, .. } => match message {
                Some(m) => (code == -503 && m@ == "服务暂不可用"@) || (code == -504 && m@
                    == "服务调用超时"@),
                None => false,
            },
            _ => false,
        }
    }

    /// The video was deleted or does not exist: code -404 (older API) or
    /// 62012 (newer API). Code 62002, "not visible", does not count.
    pub open spec fn video_not_found(&self) -> bool {
        match *self {
            BiliError::ErrorResponse { code, .. } => code == -404 || code == 62012,
            _ => false,
        }
    }

    pub fn is_risk_control_related(&self) -> (r: bool)
        ensures
            r == self.risk_control_related(),
    {
        match self {
            BiliError::RiskControlOccurred(_) => true,
            BiliError::VideoStreamsEmpty => true,
            BiliError::InvalidStatusCode(_, _) => true,
            _ => false,
        }
    }

    pub fn is_common_error(&self) -> (r: bool)
        ensures
            r == self.common_error(),
    {
        if let BiliError::ErrorResponse { code, message, .. } = self {
            if let Some(m) = message {
                if *code == -503 && str_eq(m.as_str(), "服务暂不可用") {
                    return true;
                }
                if *code == -504 && str_eq(m.as_str(), "服务调用超时") {
                    return true;
                }
            }
        }
        false
    }

    pub fn is_video_not_found(&self) -> (r: bool)
        ensures
            r == self.video_not_found(),
    {
        match self {
            BiliError::ErrorResponse { code, .. } => *code == -404 || *code == 62012,
            _ => false,
        }
    }
}

} // verus!
