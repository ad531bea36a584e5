//! Scheduled sync: checking cron expressions, the scheduler entries to
//! install, and the decision of the scheduler loop.
use vstd::prelude::*;
use vstd::string::*;

use crate::text::{decimal, decimal_string};

verus! {

#[verifier::external_type_specification]
#[verifier::external_body]
pub struct ExSchedule(cron::Schedule);

/// Whether the `cron` crate accepts `expr` as a schedule.
pub uninterp spec fn cron_accepts(expr: Seq<char>) -> bool;

/// The message of the error that the `cron` crate gives for an expression it
/// rejects.
pub uninterp spec fn cron_error_message(expr: Seq<char>) -> Seq<char>;

/// A parsed cron schedule together with the expression it was parsed from.
/// Only `parse_cron` builds one.
pub struct CronSchedule {
    source: String,
    schedule: cron::Schedule,
}

impl CronSchedule {
    /// The expression this schedule was parsed from.
    pub closed spec fn source(&self) -> Seq<char> {
        self.source@
    }

    /// The schedule held.
    pub closed spec fn schedule_value(&self) -> cron::Schedule {
        self.schedule
    }

    /// The expression this schedule was parsed from.
    pub fn source_text(&self) -> (r: &str)
        ensures
            r@ == self.source(),
    {
        self.source.as_str()
    }

    /// The parsed schedule, to work out its upcoming times.
    pub fn schedule(&self) -> (r: &cron::Schedule)
        ensures
            *r == self.schedule_value(),
    {
        &self.schedule
    }
}

/// Calls `cron::Schedule::from_str` (through `str::parse`), and on failure
/// the error's `Display`. Trusted: it succeeds exactly when the crate accepts
/// the expression, the schedule it gives back was parsed from `expr`, and on
/// failure the text is the crate's message for `expr`.
#[verifier::external_body]
fn parse_cron(expr: &str) -> (r: Result<CronSchedule, String>)
    ensures
        match r {
            Ok(s) => cron_accepts(expr@) && s.source() == expr@,
            Err(m) => !cron_accepts(expr@) && m@ == cron_error_message(expr@),
        },
{
    match expr.parse::<cron::Schedule>() {
        Ok(schedule) => Ok(CronSchedule { source: expr.to_string(), schedule }),
        Err(e) => Err(e.to_string()),
    }
}

/// Errors in setting up a schedule.
pub enum ScheduleError {
    /// The cron expression was rejected; the message says why.
    InvalidCron(String),
}

impl ScheduleError {
    pub fn message(&self) -> (r: String)
        ensures
            match self {
                ScheduleError::InvalidCron(why) => r@ == "Invalid cron expression: "@ + why@,
            },
    {
        match self {
            ScheduleError::InvalidCron(why) => {
                let mut m = String::from_str("Invalid cron expression: ");
                m.append(why.as_str());
                m
            },
        }
    }
}

/// Checks a cron expression and gives back its schedule.
pub fn validate_cron(expr: &str) -> (r: Result<CronSchedule, ScheduleError>)
    ensures
        match r {
            Ok(s) => cron_accepts(expr@) && s.source() == expr@,
            Err(ScheduleError::InvalidCron(why)) => !cron_accepts(expr@) && why@ == cron_error_message(
                expr@,
            ),
        },
{
    match parse_cron(expr) {
        Ok(s) => Ok(s),
        Err(why) => Err(ScheduleError::InvalidCron(why)),
    }
}

pub open spec fn sync_command_for(source: Seq<char>) -> Seq<char> {
    "cd "@ + source + " && synclite sync"@
}

/// The crontab line that runs a sync of `source` on the schedule `expr`.
pub open spec fn cron_line_spec(expr: Seq<char>, source: Seq<char>) -> Seq<char> {
    expr + " "@ + sync_command_for(source)
}

/// The crontab line that runs a sync every `minutes` minutes.
pub open spec fn interval_line_spec(minutes: u64, source: Seq<char>) -> Seq<char> {
    "*/"@ + decimal(minutes as nat) + " * * * * "@ + sync_command_for(source)
}

/// The Windows Task Scheduler command that runs a sync every `minutes` minutes.
pub open spec fn schtasks_spec(source: Seq<char>, minutes: u64) -> Seq<char> {
    "schtasks /create /tn SyncLite /tr \""@ + sync_command_for(source) + "\" /sc minute /mo "@
        + decimal(minutes as nat)
}

fn sync_command(source: &str) -> (r: String)
    ensures
        r@ == sync_command_for(source@),
{
    let mut s = String::from_str("cd ");
    s.append(source);
    s.append(" && synclite sync");
    s
}

/// The crontab line for a cron schedule.
pub fn cron_line(expr: &str, source: &str) -> (r: String)
    ensures
        r@ == cron_line_spec(expr@, source@),
{
    let mut s = String::from_str(expr);
    s.append(" ");
    let cmd = sync_command(source);
    s.append(cmd.as_str());
    assert(s@ =~= cron_line_spec(expr@, source@));
    s
}

/// The crontab line for an interval schedule.
pub fn interval_line(minutes: u64, source: &str) -> (r: String)
    ensures
        r@ == interval_line_spec(minutes, source@),
{
    let mut s = String::from_str("*/");
    let m = decimal_string(minutes);
    s.append(m.as_str());
    s.append(" * * * * ");
    let cmd = sync_command(source);
    s.append(cmd.as_str());
    assert(s@ =~= interval_line_spec(minutes, source@));
    s
}

/// The Task Scheduler command for an interval schedule.
pub fn schtasks_command(source: &str, minutes: u64) -> (r: String)
    ensures
        r@ == schtasks_spec(source@, minutes),
{
    let mut s = String::from_str("schtasks /create /tn SyncLite /tr \"");
    let cmd = sync_command(source);
    s.append(cmd.as_str());
    s.append("\" /sc minute /mo ");
    let m = decimal_string(minutes);
    s.append(m.as_str());
    assert(s@ =~= schtasks_spec(source@, minutes));
    s
}

/// What the scheduler loop does next.
#[derive(Debug, Clone, Copy, PartialEq, Eq, Structural)]
pub enum SchedulerStep {
    /// Sleep this many seconds, then sync.
    SleepThenSync(u64),
    /// The schedule has no upcoming time: stop.
    Stop,
}

/// The scheduler's next step, given the whole seconds from now until the next
/// scheduled time, if there is one. The count is taken as unsigned, so a time
/// already past wraps around.
pub fn next_step(seconds_until_next: Option<i64>) -> (r: SchedulerStep)
    ensures
        r == match seconds_until_next {
            Some(d) => SchedulerStep::SleepThenSync(d as u64),
            None => SchedulerStep::Stop,
        },
{
    match seconds_until_next {
        Some(d) => SchedulerStep::SleepThenSync(d as u64),
        None => SchedulerStep::Stop,
    }
}

} // verus!
