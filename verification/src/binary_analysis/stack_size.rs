//! The stack frame size check: which lint level applies, and which frame size limit.

use vstd::prelude::*;

verus! {

/// The frame size limit assumed when the build configures none.
pub const DEFAULT_FRAME_LIMIT: i32 = 2048;

/// Lint levels, as the compiler has them.
#[derive(Clone, Copy, Debug, PartialEq, Eq, Structural)]
pub enum LintLevel {
    Allow,
    Expect,
    Warn,
    ForceWarn,
    Deny,
    Forbid,
}

/// Levels of diagnostics that the check emits.
#[derive(Clone, Copy, Debug, PartialEq, Eq, Structural)]
pub enum DiagLevel {
    Warning,
    ForceWarning,
    Error,
}

/// The diagnostic level of the check at lint level `level`; `None` when the check does not run.
///
/// `expect` is not supported, as the check runs too late; it is treated like `allow`.
pub fn diagnostic_level(level: LintLevel) -> (d: Option<DiagLevel>)
    ensures
        d == match level {
            LintLevel::Allow | LintLevel::Expect => None,
            LintLevel::Warn => Some(DiagLevel::Warning),
            LintLevel::ForceWarn => Some(DiagLevel::ForceWarning),
            LintLevel::Deny | LintLevel::Forbid => Some(DiagLevel::Error),
        },
{
    match level {
        LintLevel::Allow | LintLevel::Expect => None,
        LintLevel::Warn => Some(DiagLevel::Warning),
        LintLevel::ForceWarn => Some(DiagLevel::ForceWarning),
        LintLevel::Deny | LintLevel::Forbid => Some(DiagLevel::Error),
    }
}

/// The frame size limit that the build configures through `CONFIG_FRAME_WARN`.
#[derive(Clone, Copy, Debug, PartialEq, Eq, Structural)]
pub enum FrameLimit {
    /// No limit is configured: warn, and use `DEFAULT_FRAME_LIMIT`.
    Missing,
    Limit(i32),
    /// The configured value is not a number: report it and skip the check.
    Invalid,
}

/// The value of the first `CONFIG_FRAME_WARN="..."` setting of `config`, or empty.
pub open spec fn frame_warn_setting(config: Seq<(String, Option<String>)>) -> Seq<char>
    decreases config.len(),
{
    if config.len() == 0 {
        Seq::empty()
    } else if config[0].0@ == "CONFIG_FRAME_WARN"@ && config[0].1 is Some {
        config[0].1.unwrap()@
    } else {
        frame_warn_setting(config.drop_first())
    }
}

/// The frame size limit configured by `config`, the `--cfg` settings of the session in order.
pub open spec fn frame_limit_spec(config: Seq<(String, Option<String>)>) -> FrameLimit {
    let v = frame_warn_setting(config);
    if v.len() == 0 {
        FrameLimit::Missing
    } else {
        match crate::util::parse_i32_spec(v) {
            Some(n) => FrameLimit::Limit(n),
            None => FrameLimit::Invalid,
        }
    }
}

/// Reads the frame size limit out of the `--cfg` settings of the session, in order.
pub fn frame_limit(config: &Vec<(String, Option<String>)>) -> (f: FrameLimit)
    ensures
        f == frame_limit_spec(config@),
{
    let key = String::from_str("CONFIG_FRAME_WARN");
    let mut i: usize = 0;
    assert(config@.skip(0) =~= config@);
    while i < config.len()
        invariant
            i <= config@.len(),
            key@ == "CONFIG_FRAME_WARN"@,
            frame_warn_setting(config@.skip(i as int)) == frame_warn_setting(config@),
        decreases config@.len() - i,
    {
        assert(config@.skip(i as int).drop_first() =~= config@.skip(i + 1));
        assert(config@.skip(i as int)[0] == config@[i as int]);
        let (k, v) = &config[i];
        if *k == key {
            if let Some(v) = v {
                if v.as_str().unicode_len() == 0 {
                    return FrameLimit::Missing;
                }
                return match crate::util::str_to_i32(v) {
                    Some(n) => FrameLimit::Limit(n),
                    None => FrameLimit::Invalid,
                };
            }
        }
        i = i + 1;
    }
    FrameLimit::Missing
}

} // verus!
