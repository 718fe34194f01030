//! The whole report as text.
use crate::info::aggregate::{debugfs_usage, holding_size, holdings, total_size};
use crate::info::format::MAX_KB;
use crate::info::memory::{
    memory_fits, memory_text, params_text, pressure_text, push_memory, push_params, push_pressure,
};
use crate::info::report::{
    buffers_text, caps_text, details_text, exporter_names, heaps_text, pool_text, processes_text,
    push_buffers, push_caps, push_details, push_heaps, push_pool, push_processes, refs_fit, widest,
};
use crate::info::types::InfoReport;
use crate::info::zones::{
    areas_fit, areas_text, blocks_fit, buddy_blocks, cma_blocks, fragmentation_text, push_areas,
    push_fragmentation, push_zones, zones_text,
};
use crate::text::group_concat;
use vstd::prelude::*;

verus! {

broadcast use group_concat;

/// The report as text: its sections in order, those of optional data only where
/// the report has them.
pub open spec fn human_text(r: InfoReport) -> Seq<char> {
    heaps_text(r.heaps@) + (match r.heap_caps {
        Some(c) => caps_text(c@),
        None => Seq::empty(),
    }) + (match r.dma_heap_pool_kb {
        Some(kb) => pool_text(kb),
        None => Seq::empty(),
    }) + buffers_text(r.buffer_summary@, r.total_buffers, r.total_buffer_size_bytes) + (
    match r.buffers {
        Some(b) => details_text(b@),
        None => Seq::empty(),
    }) + (match r.process_usage {
        Some(p) => processes_text(p@),
        None => Seq::empty(),
    }) + pressure_text(r.psi_memory, r.psi_io) + memory_text(r.memory) + (match r.vm_params {
        Some(p) => params_text(p),
        None => Seq::empty(),
    }) + (match r.zones {
        Some(z) => zones_text(z@),
        None => Seq::empty(),
    }) + (match r.cma_areas {
        Some(a) => areas_text(a@),
        None => Seq::empty(),
    }) + fragmentation_text(r.buddyinfo, r.pagetypeinfo)
}

/// Every figure that the text derives fits its machine integer.
pub open spec fn report_fits(r: InfoReport) -> bool {
    &&& r.dma_heap_pool_kb matches Some(kb) ==> kb <= MAX_KB
    &&& refs_fit(r.buffer_summary@)
    &&& widest(exporter_names(r.buffer_summary@), 8) <= usize::MAX - 50
    &&& r.buffers matches Some(b) ==> total_size(debugfs_usage(b@)) <= u64::MAX
    &&& r.process_usage matches Some(p) ==> holding_size(holdings(p@)) <= u64::MAX
    &&& memory_fits(r.memory)
    &&& r.cma_areas matches Some(a) ==> areas_fit(a@)
    &&& r.buddyinfo matches Some(b) ==> blocks_fit(buddy_blocks(b@))
    &&& r.pagetypeinfo matches Some(p) ==> blocks_fit(cma_blocks(p@))
}

/// Renders the report as text.
pub fn format_human(report: &InfoReport) -> (out: String)
    requires
        report_fits(*report),
    ensures
        out@ == human_text(*report),
{
    let mut out = String::new();
    push_heaps(&mut out, &report.heaps);
    match &report.heap_caps {
        Some(c) => push_caps(&mut out, c),
        None => {},
    }
    match report.dma_heap_pool_kb {
        Some(kb) => push_pool(&mut out, kb),
        None => {},
    }
    push_buffers(
        &mut out,
        &report.buffer_summary,
        report.total_buffers,
        report.total_buffer_size_bytes,
    );
    match &report.buffers {
        Some(b) => push_details(&mut out, b),
        None => {},
    }
    match &report.process_usage {
        Some(p) => push_processes(&mut out, p),
        None => {},
    }
    push_pressure(&mut out, &report.psi_memory, &report.psi_io);
    push_memory(&mut out, &report.memory);
    match &report.vm_params {
        Some(p) => push_params(&mut out, p),
        None => {},
    }
    match &report.zones {
        Some(z) => push_zones(&mut out, z),
        None => {},
    }
    match &report.cma_areas {
        Some(a) => push_areas(&mut out, a),
        None => {},
    }
    push_fragmentation(&mut out, &report.buddyinfo, &report.pagetypeinfo);
    out
}

} // verus!
