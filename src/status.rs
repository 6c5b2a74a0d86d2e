use vstd::prelude::*;

verus! {

/// Lifecycle of an activity, as the portal assigns it.
#[derive(Debug, Clone, Copy, PartialEq, Eq, Structural)]
pub enum Status {
    Applying,
    ApplyEnded,
    HourPublic,
    HourAppendPublic,
    PublicEnded,
    HourApplying,
    HourApproved,
    HourRejected,
    Finished,
    AbnormalFinished,
    Unknown,
}

/// The status that an integer code stands for; every code has one.
pub open spec fn status_of(code: i32) -> Status {
    if code == 26 {
        Status::Applying
    } else if code == 28 {
        Status::ApplyEnded
    } else if code == 30 {
        Status::HourPublic
    } else if code == 31 {
        Status::HourAppendPublic
    } else if code == 32 {
        Status::PublicEnded
    } else if code == 33 {
        Status::HourApplying
    } else if code == 34 {
        Status::HourApproved
    } else if code == 35 {
        Status::HourRejected
    } else if code == 40 {
        Status::Finished
    } else if code == -3 {
        Status::AbnormalFinished
    } else {
        Status::Unknown
    }
}

impl Status {
    pub open spec fn code_spec(self) -> i32 {
        match self {
            Status::Applying => 26,
            Status::ApplyEnded => 28,
            Status::HourPublic => 30,
            Status::HourAppendPublic => 31,
            Status::PublicEnded => 32,
            Status::HourApplying => 33,
            Status::HourApproved => 34,
            Status::HourRejected => 35,
            Status::Finished => 40,
            Status::AbnormalFinished => -3i32,
            Status::Unknown => -1i32,
        }
    }

    pub open spec fn text_spec(self) -> Seq<char> {
        match self {
            Status::Applying => "报名中"@,
            Status::ApplyEnded => "报名已结束"@,
            Status::HourPublic => "学时公示中"@,
            Status::HourAppendPublic => "追加学时公示"@,
            Status::PublicEnded => "公示已结束"@,
            Status::HourApplying => "学时申请中"@,
            Status::HourApproved => "学时审核通过"@,
            Status::HourRejected => "学时驳回"@,
            Status::Finished => "结项"@,
            Status::AbnormalFinished => "异常结项"@,
            Status::Unknown => "未知状态"@,
        }
    }

    /// The portal's integer code of this status.
    pub fn code(&self) -> (r: i32)
        ensures
            r == self.code_spec(),
    {
        match self {
            Status::Applying => 26,
            Status::ApplyEnded => 28,
            Status::HourPublic => 30,
            Status::HourAppendPublic => 31,
            Status::PublicEnded => 32,
            Status::HourApplying => 33,
            Status::HourApproved => 34,
            Status::HourRejected => 35,
            Status::Finished => 40,
            Status::AbnormalFinished => -3,
            Status::Unknown => -1,
        }
    }

    /// The label shown to participants.
    pub fn text(&self) -> (r: &'static str)
        ensures
            r@ == self.text_spec(),
    {
        match self {
            Status::Applying => "报名中",
            Status::ApplyEnded => "报名已结束",
            Status::HourPublic => "学时公示中",
            Status::HourAppendPublic => "追加学时公示",
            Status::PublicEnded => "公示已结束",
            Status::HourApplying => "学时申请中",
            Status::HourApproved => "学时审核通过",
            Status::HourRejected => "学时驳回",
            Status::Finished => "结项",
            Status::AbnormalFinished => "异常结项",
            Status::Unknown => "未知状态",
        }
    }
}

impl From<i32> for Status {
    fn from(code: i32) -> (r: Status) {
        if code == 26 {
            Status::Applying
        } else if code == 28 {
            Status::ApplyEnded
        } else if code == 30 {
            Status::HourPublic
        } else if code == 31 {
            Status::HourAppendPublic
        } else if code == 32 {
            Status::PublicEnded
        } else if code == 33 {
            Status::HourApplying
        } else if code == 34 {
            Status::HourApproved
        } else if code == 35 {
            Status::HourRejected
        } else if code == 40 {
            Status::Finished
        } else if code == -3 {
            Status::AbnormalFinished
        } else {
            Status::Unknown
        }
    }
}

impl vstd::std_specs::convert::FromSpecImpl<i32> for Status {
    open spec fn obeys_from_spec() -> bool {
        true
    }

    open spec fn from_spec(v: i32) -> Status {
        status_of(v)
    }
}

/// Decoding is total and idempotent: decoding the code of a decoded status
/// gives that status again, for every integer code, known or not.
pub proof fn lemma_status_round_trip(code: i32)
    ensures
        status_of(status_of(code).code_spec()) == status_of(code),
{
}

} // verus!
