use vstd::prelude::*;

use crate::text::{chars_eq, chars_of, opt_chars, trim, trimmed};

verus! {

/// DisplayPort details of a connector.
pub struct DpInfo {
    pub is_dp: bool,
    pub link_rate: Option<String>,
    pub lane_count: Option<String>,
}

/// The mathematical content of a `DpInfo`.
pub struct DpView {
    pub is_dp: bool,
    pub link_rate: Option<Seq<char>>,
    pub lane_count: Option<Seq<char>>,
}

impl View for DpInfo {
    type V = DpView;

    open spec fn view(&self) -> DpView {
        DpView {
            is_dp: self.is_dp,
            link_rate: opt_chars(self.link_rate),
            lane_count: opt_chars(self.lane_count),
        }
    }
}

/// Whether a connector type is DisplayPort or embedded DisplayPort.
pub open spec fn is_dp_type(connector_type: Seq<char>) -> bool {
    connector_type == "DP"@ || connector_type == "eDP"@
}

/// A sysfs attribute as reported: its content trimmed, or nothing when it could not
/// be read or holds only white space.
pub open spec fn attr_value(raw: Option<Seq<char>>) -> Option<Seq<char>> {
    match raw {
        Some(t) => if trimmed(t).len() > 0 {
            Some(trimmed(t))
        } else {
            None
        },
        None => None,
    }
}

/// Whether a connector type is DisplayPort (`DP`) or embedded DisplayPort (`eDP`).
pub fn is_dp_connector(connector_type: &str) -> (r: bool)
    ensures
        r == is_dp_type(connector_type@),
{
    let t = chars_of(connector_type);
    let dp = chars_of("DP");
    let edp = chars_of("eDP");
    chars_eq(t.as_slice(), dp.as_slice()) || chars_eq(t.as_slice(), edp.as_slice())
}

/// A DP attribute file's content, trimmed; `None` where it was not read or is blank.
pub fn clean_attr(raw: Option<String>) -> (r: Option<String>)
    ensures
        opt_chars(r) == attr_value(opt_chars(raw)),
{
    match raw {
        Some(t) => {
            let s = trim(t.as_str());
            if s.as_str().is_empty() {
                None
            } else {
                Some(s)
            }
        },
        None => None,
    }
}

/// The DisplayPort details of a connector, given its type and the raw contents of
/// its `link_rate` and `lane_count` attribute files (where they could be read).
/// For a connector that is not DP or eDP nothing is reported, whatever was read.
pub fn get_dp_info(
    connector_type: &str,
    link_rate_raw: Option<String>,
    lane_count_raw: Option<String>,
) -> (info: DpInfo)
    ensures
        info.is_dp == is_dp_type(connector_type@),
        opt_chars(info.link_rate) == if info.is_dp {
            attr_value(opt_chars(link_rate_raw))
        } else {
            None
        },
        opt_chars(info.lane_count) == if info.is_dp {
            attr_value(opt_chars(lane_count_raw))
        } else {
            None
        },
{
    let is_dp = is_dp_connector(connector_type);
    if !is_dp {
        return DpInfo { is_dp: false, link_rate: None, lane_count: None };
    }
    let link_rate = clean_attr(link_rate_raw);
    let lane_count = clean_attr(lane_count_raw);
    DpInfo { is_dp: true, link_rate, lane_count }
}

} // verus!

verus! {

/// Exactly the connector types `DP` and `eDP` are DisplayPort: any other type,
/// such as `DVI-D`, `DSI`, `HDMI-A` or `VGA`, is not.
pub proof fn lemma_dp_types(t: Seq<char>)
    ensures
        is_dp_type(t) <==> (t == seq!['D', 'P'] || t == seq!['e', 'D', 'P']),
{
    reveal_strlit("DP");
    reveal_strlit("eDP");
    assert("DP"@ =~= seq!['D', 'P']);
    assert("eDP"@ =~= seq!['e', 'D', 'P']);
}

} // verus!
