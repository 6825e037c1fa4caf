use vstd::prelude::*;
use vstd::string::StrSliceExecFns;

use crate::types::{
    percentage_sum, CampaignParam, CampaignParams, ContractError, DistributionType,
    MAX_DESCRIPTION_LEN, MAX_NAME_LEN, MAX_TYPE_LEN, ONE,
};

verus! {

/// A free-form text field is non-empty and at most `max` characters long.
pub open spec fn text_ok(s: Seq<char>, max: usize) -> bool {
    0 < s.len() <= max
}

/// Why a slot is invalid in a campaign from `start` to `end`, if it is.
pub open spec fn slot_error(d: DistributionType, start: u64, end: u64) -> Option<ContractError> {
    if d.spec_percentage() == 0 || d.spec_percentage() > ONE {
        Some(ContractError::InvalidCampaignParam { param: CampaignParam::Percentage })
    } else {
        match d {
            DistributionType::LumpSum { start_time, .. } => if start_time < start {
                Some(ContractError::InvalidCampaignParam { param: CampaignParam::DistributionStartTime })
            } else {
                None
            },
            DistributionType::LinearVesting { start_time, end_time, cliff_duration, .. } => {
                if start_time < start {
                    Some(
                        ContractError::InvalidCampaignParam {
                            param: CampaignParam::DistributionStartTime,
                        },
                    )
                } else if end_time <= start_time {
                    Some(ContractError::InvalidDistributionTimes { start_time, end_time })
                } else if end_time > end {
                    Some(ContractError::InvalidCampaignParam { param: CampaignParam::DistributionEndTime })
                } else {
                    match cliff_duration {
                        Some(c) => if c >= end_time - start_time {
                            Some(ContractError::InvalidCampaignParam { param: CampaignParam::CliffDuration })
                        } else {
                            None
                        },
                        None => None,
                    }
                }
            },
        }
    }
}

/// The error of the first invalid slot among the first `n`.
pub open spec fn first_slot_error(s: Seq<DistributionType>, n: int, start: u64, end: u64) -> Option<
    ContractError,
>
    decreases n,
{
    if n <= 0 {
        None
    } else {
        match first_slot_error(s, n - 1, start, end) {
            Some(e) => Some(e),
            None => slot_error(s[n - 1], start, end),
        }
    }
}

/// What is wrong with the fields of `p` other than its slots, if anything.
pub open spec fn header_error(now: u64, p: CampaignParams) -> Option<ContractError> {
    if !text_ok(p.name@, MAX_NAME_LEN) {
        Some(ContractError::InvalidCampaignParam { param: CampaignParam::Name })
    } else if !text_ok(p.description@, MAX_DESCRIPTION_LEN) {
        Some(ContractError::InvalidCampaignParam { param: CampaignParam::Description })
    } else if !text_ok(p.ty@, MAX_TYPE_LEN) {
        Some(ContractError::InvalidCampaignParam { param: CampaignParam::Type })
    } else if p.total_reward.amount == 0 {
        Some(ContractError::InvalidCampaignParam { param: CampaignParam::TotalReward })
    } else if p.start_time <= now {
        Some(ContractError::InvalidCampaignParam { param: CampaignParam::StartTime })
    } else if p.end_time <= p.start_time {
        Some(ContractError::InvalidCampaignParam { param: CampaignParam::EndTime })
    } else if p.distribution_type@.len() == 0 {
        Some(ContractError::InvalidCampaignParam { param: CampaignParam::DistributionType })
    } else {
        None
    }
}

/// Why a campaign cannot be created from `p` at time `now`, if it cannot.
pub open spec fn params_error(now: u64, p: CampaignParams) -> Option<ContractError> {
    let s = p.distribution_type@;
    if header_error(now, p) is Some {
        header_error(now, p)
    } else if first_slot_error(s, s.len() as int, p.start_time, p.end_time) is Some {
        first_slot_error(s, s.len() as int, p.start_time, p.end_time)
    } else if percentage_sum(s) != ONE {
        Some(ContractError::InvalidCampaignParam { param: CampaignParam::Percentage })
    } else {
        None
    }
}

fn text_within(s: &String, max: usize) -> (r: bool)
    ensures
        r == text_ok(s@, max),
{
    let n = s.as_str().unicode_len();
    0 < n && n <= max
}

fn check_slot(d: &DistributionType, start: u64, end: u64) -> (r: Result<(), ContractError>)
    ensures
        r matches Err(e) ==> slot_error(*d, start, end) == Some(e),
        r is Ok ==> slot_error(*d, start, end) is None,
{
    let p = d.percentage();
    if p == 0 || p > ONE {
        return Err(ContractError::InvalidCampaignParam { param: CampaignParam::Percentage });
    }
    match *d {
        DistributionType::LumpSum { start_time, .. } => {
            if start_time < start {
                return Err(
                    ContractError::InvalidCampaignParam { param: CampaignParam::DistributionStartTime },
                );
            }
            Ok(())
        },
        DistributionType::LinearVesting { start_time, end_time, cliff_duration, .. } => {
            if start_time < start {
                return Err(
                    ContractError::InvalidCampaignParam { param: CampaignParam::DistributionStartTime },
                );
            }
            if end_time <= start_time {
                return Err(ContractError::InvalidDistributionTimes { start_time, end_time });
            }
            if end_time > end {
                return Err(
                    ContractError::InvalidCampaignParam { param: CampaignParam::DistributionEndTime },
                );
            }
            match cliff_duration {
                Some(c) => {
                    if c >= end_time - start_time {
                        return Err(
                            ContractError::InvalidCampaignParam { param: CampaignParam::CliffDuration },
                        );
                    }
                },
                None => {},
            }
            Ok(())
        },
    }
}

proof fn lemma_no_slot_error(s: Seq<DistributionType>, n: int, start: u64, end: u64)
    requires
        0 <= n <= s.len(),
        first_slot_error(s, n, start, end) is None,
    ensures
        forall|k: int| 0 <= k < n ==> (#[trigger] s[k]).spec_valid(start, end),
    decreases n,
{
    if n > 0 {
        lemma_no_slot_error(s, n - 1, start, end);
        assert(slot_error(s[n - 1], start, end) is None);
    }
}

/// Checks campaign parameters at time `now`: `Ok` exactly when nothing is
/// wrong, else the first error in field order; valid parameters make a
/// valid schedule.
pub fn validate_campaign_params(now: u64, p: &CampaignParams) -> (r: Result<(), ContractError>)
    ensures
        match params_error(now, *p) {
            None => r is Ok,
            Some(e) => r == Err::<(), ContractError>(e),
        },
        r is Ok ==> p.distribution_type@.len() > 0 && percentage_sum(p.distribution_type@) == ONE
            && forall|k: int|
            0 <= k < p.distribution_type@.len() ==> (#[trigger] p.distribution_type@[k]).spec_valid(
                p.start_time,
                p.end_time,
            ),
{
    if !text_within(&p.name, MAX_NAME_LEN) {
        return Err(ContractError::InvalidCampaignParam { param: CampaignParam::Name });
    }
    if !text_within(&p.description, MAX_DESCRIPTION_LEN) {
        return Err(ContractError::InvalidCampaignParam { param: CampaignParam::Description });
    }
    if !text_within(&p.ty, MAX_TYPE_LEN) {
        return Err(ContractError::InvalidCampaignParam { param: CampaignParam::Type });
    }
    if p.total_reward.amount == 0 {
        return Err(ContractError::InvalidCampaignParam { param: CampaignParam::TotalReward });
    }
    if p.start_time <= now {
        return Err(ContractError::InvalidCampaignParam { param: CampaignParam::StartTime });
    }
    if p.end_time <= p.start_time {
        return Err(ContractError::InvalidCampaignParam { param: CampaignParam::EndTime });
    }
    let n = p.distribution_type.len();
    if n == 0 {
        return Err(ContractError::InvalidCampaignParam { param: CampaignParam::DistributionType });
    }
    let ghost s = p.distribution_type@;
    let mut k: usize = 0;
    while k < n
        invariant
            n == s.len(),
            s == p.distribution_type@,
            header_error(now, *p) is None,
            0 <= k <= n,
            first_slot_error(s, k as int, p.start_time, p.end_time) is None,
        decreases n - k,
    {
        match check_slot(&p.distribution_type[k], p.start_time, p.end_time) {
            Ok(()) => {},
            Err(e) => {
                proof {
                    assert(slot_error(s[k as int], p.start_time, p.end_time) == Some(e));
                    assert(first_slot_error(s, k as int + 1, p.start_time, p.end_time) == Some(e));
                    lemma_first_error_stays(s, k as int + 1, n as int, p.start_time, p.end_time);
                }
                return Err(e);
            },
        }
        k = k + 1;
    }
    proof {
        lemma_no_slot_error(s, n as int, p.start_time, p.end_time);
    }
    let mut total: u128 = 0;
    let mut k: usize = 0;
    while k < n
        invariant
            n == s.len(),
            s == p.distribution_type@,
            header_error(now, *p) is None,
            first_slot_error(s, n as int, p.start_time, p.end_time) is None,
            0 <= k <= n,
            n <= usize::MAX,
            forall|j: int| 0 <= j < n ==> (#[trigger] s[j]).spec_valid(p.start_time, p.end_time),
            total == percentage_sum(s.take(k as int)),
            total <= k * ONE,
        decreases n - k,
    {
        proof {
            assert(s.take(k + 1).drop_last() =~= s.take(k as int));
            assert(s[k as int].spec_valid(p.start_time, p.end_time));
            assert((k + 1) * ONE <= (usize::MAX as int + 1) * ONE) by (nonlinear_arith)
                requires
                    k < usize::MAX,
            ;
        }
        total = total + p.distribution_type[k].percentage();
        k = k + 1;
    }
    proof {
        assert(s.take(n as int) =~= s);
    }
    if total != ONE {
        return Err(ContractError::InvalidCampaignParam { param: CampaignParam::Percentage });
    }
    Ok(())
}

/// Once the first `n` slots show an error, every longer prefix shows the same one.
proof fn lemma_first_error_stays(s: Seq<DistributionType>, n: int, m: int, start: u64, end: u64)
    requires
        0 <= n <= m,
        first_slot_error(s, n, start, end) is Some,
    ensures
        first_slot_error(s, m, start, end) == first_slot_error(s, n, start, end),
    decreases m - n,
{
    if n < m {
        lemma_first_error_stays(s, n, m - 1, start, end);
    }
}

} // verus!
