use vstd::prelude::*;

verus! {

/// Whether `show-config` warns that no collector matched: the filtered list
/// is empty although a collector or metric filter was given.
pub fn no_match_warning(filtered_is_empty: bool, collector_filter: Option<&str>, metric_filter: Option<&str>) -> (res:
    bool)
    ensures
        res == (filtered_is_empty && (collector_filter is Some || metric_filter is Some)),
{
    filtered_is_empty && (collector_filter.is_some() || metric_filter.is_some())
}

} // verus!
