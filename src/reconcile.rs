use vstd::prelude::*;
use crate::config::{
    device_name, get_ltk, one_line_values, stored_ltk, stored_name, update_bt_info, update_is_idempotent,
    update_keeps_device_name, updated_content,
};
use crate::text::same_text;
use crate::device::{BtDeviceInfo, BtDeviceInfoView};
use crate::table::{lookup, table_view, unique_keys};

verus! {

/// What one device's reconciliation changed, for the run's report.
#[derive(Debug, Clone)]
pub struct ReconciliationResult {
    pub display_name: String,
    pub old_dir: String,
    pub new_mac: String,
    pub old_ltk: String,
    pub new_ltk: String,
}

/// The work that reconciling one device directory asks for: write
/// `content` to its `info` file, then move the directory to `rename_to`
/// when that is set.
#[derive(Debug, Clone)]
pub struct DeviceUpdate {
    pub content: String,
    pub rename_to: Option<String>,
    pub result: ReconciliationResult,
}

/// The record that an `info` file's display name matches, if any.
pub open spec fn matched_record(content: Seq<char>, records: Map<Seq<char>, BtDeviceInfoView>) -> Option<
    BtDeviceInfoView,
> {
    match stored_name(content) {
        Some(n) => if records.contains_key(n) {
            Some(records[n])
        } else {
            None
        },
        None => None,
    }
}

/// Whether a directory name is taken for a paired device's directory: it
/// holds a colon, as an address does.
pub open spec fn is_device_dir(name: Seq<char>) -> bool {
    name.contains(':')
}

pub fn is_valid_device_directory(name: &str) -> (r: bool)
    ensures
        r == is_device_dir(name@),
{
    let n = name.unicode_len();
    let mut i: usize = 0;
    while i < n
        invariant
            n == name@.len(),
            i <= n,
            forall|j: int| 0 <= j < i ==> name@[j] != ':',
        decreases n - i,
    {
        if name.get_char(i) == ':' {
            return true;
        }
        i = i + 1;
    }
    false
}

/// Decides what to do with the device directory `dir_name`, whose `info`
/// file holds `content`, given the records by display name. Nothing is
/// done unless the file names a device that has a record; then the file
/// gets the record's key fields, the directory the record's address where
/// it has another name, and the report the old and the new values.
pub fn plan_device_update(dir_name: &str, content: &str, records: &Vec<(String, BtDeviceInfo)>) -> (r:
    Option<DeviceUpdate>)
    requires
        unique_keys(records@),
    ensures
        r is Some <==> matched_record(content@, table_view(records@)) is Some,
        r is Some ==> {
            let info = matched_record(content@, table_view(records@))->0;
            let u = r->0;
            &&& u.content@ == updated_content(content@, info)
            &&& (u.rename_to is Some <==> dir_name@ != info.mac)
            &&& (u.rename_to is Some ==> u.rename_to->0@ == info.mac)
            &&& u.result.display_name@ == stored_name(content@)->0
            &&& u.result.old_dir@ == dir_name@
            &&& u.result.new_mac@ == info.mac
            &&& u.result.old_ltk@ == stored_ltk(content@)
            &&& u.result.new_ltk@ == info.ltk
        },
{
    let name = match device_name(content) {
        Some(n) => n,
        None => {
            return None;
        },
    };
    let info = match lookup(records, name.as_str()) {
        Some(i) => i,
        None => {
            return None;
        },
    };
    let new_content = update_bt_info(content, info);
    let rename_to = if same_text(dir_name, info.mac.as_str()) {
        None
    } else {
        Some(info.mac.clone())
    };
    let result = ReconciliationResult {
        display_name: name,
        old_dir: String::from_str(dir_name),
        new_mac: info.mac.clone(),
        old_ltk: get_ltk(content),
        new_ltk: info.ltk.clone(),
    };
    Some(DeviceUpdate { content: new_content, rename_to, result })
}

/// How a run ends.
#[derive(Debug, Clone, Copy, PartialEq, Eq)]
pub enum RunOutcome {
    /// No device matched: nothing is reported as changed, no service restarted.
    NoMatches,
    /// Devices were updated; the Bluetooth service is restarted once if
    /// `restart` is set.
    Updated { restart: bool },
}

/// The end of a run with these results; `restart_enabled` says whether the
/// run may restart the Bluetooth service.
pub fn run_outcome(results: &Vec<ReconciliationResult>, restart_enabled: bool) -> (r: RunOutcome)
    ensures
        results@.len() == 0 ==> r == RunOutcome::NoMatches,
        results@.len() > 0 ==> r == (RunOutcome::Updated { restart: restart_enabled }),
{
    if results.len() == 0 {
        RunOutcome::NoMatches
    } else {
        RunOutcome::Updated { restart: restart_enabled }
    }
}

} // verus!

verus! {

/// Running again over a device that was already reconciled finds the same
/// record and writes the same content: an interrupted run can be repeated.
pub proof fn reconcile_again_changes_nothing(content: Seq<char>, records: Map<Seq<char>, BtDeviceInfoView>)
    requires
        matched_record(content, records) is Some,
        one_line_values(matched_record(content, records)->0),
    ensures
        ({
            let info = matched_record(content, records)->0;
            let written = updated_content(content, info);
            &&& matched_record(written, records) == Some(info)
            &&& updated_content(written, info) == written
        }),
{
    let info = matched_record(content, records)->0;
    update_keeps_device_name(content, info);
    update_is_idempotent(content, info);
}

} // verus!
