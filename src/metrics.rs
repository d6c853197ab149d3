//! Server metrics: job and batch counters and their Prometheus text form.
//! The clock is the caller's: times come in as seconds.

use vstd::prelude::*;
use crate::text::{decimal, decimal_string, digit};

verus! {

#[derive(Debug, Clone, Copy, PartialEq, Eq)]
pub struct JobStatistics {
    pub total_jobs: u64,
    pub completed_jobs: u64,
    pub failed_jobs: u64,
    pub active_jobs: u64,
    pub queued_jobs: u64,
    pub total_processing_ms: u64,
    pub total_pages_processed: u64,
}

#[derive(Debug, Clone, Copy, PartialEq, Eq)]
pub struct BatchStatistics {
    pub total: u64,
    pub completed: u64,
    pub processing: u64,
}

#[derive(Debug, Clone, Copy, PartialEq, Eq)]
pub struct SystemMetrics {
    pub memory_used_mb: u64,
    pub worker_count: usize,
    pub websocket_connections: usize,
}

#[derive(Debug, Clone)]
pub struct ServerInfo {
    pub version: String,
    pub uptime_seconds: u64,
    pub started_at: String,
}

/// Counters of jobs and batches since the server started at
/// `started_at_secs`.
#[derive(Debug, Clone)]
pub struct MetricsCollector {
    pub started_at_secs: u64,
    pub started_at_str: String,
    pub total_jobs: u64,
    pub completed_jobs: u64,
    pub failed_jobs: u64,
    pub active_jobs: u64,
    pub total_processing_ms: u64,
    pub total_pages: u64,
    pub total_batches: u64,
    pub completed_batches: u64,
    pub active_batches: u64,
}

pub open spec fn wrapping_add(a: u64, b: u64) -> u64 {
    ((a + b) % 0x1_0000_0000_0000_0000) as u64
}

pub open spec fn wrapping_sub(a: u64, b: u64) -> u64 {
    if a >= b { (a - b) as u64 } else { (a + 0x1_0000_0000_0000_0000 - b) as u64 }
}

/// Mean processing time in hundredths of a second, rounded half up.
pub open spec fn avg_hundredths(total_ms: u64, completed: u64) -> nat {
    if completed == 0 { 0 } else { ((total_ms + 5 * completed) / (10 * completed)) as nat }
}

/// `n` hundredths written with two decimals.
pub open spec fn two_decimals(n: nat) -> Seq<char> {
    decimal(n / 100) + seq!['.', digit((n % 100) / 10), digit(n % 10)]
}

pub open spec fn prometheus_text(
    m: MetricsCollector,
    queued: u64,
    ws: usize,
    workers: usize,
    uptime: u64,
) -> Seq<char> {
    "# HELP superbook_jobs_total Total number of jobs by status\n"@ + "# TYPE superbook_jobs_total counter\n"@
        + "superbook_jobs_total{status=\"completed\"} "@ + decimal(m.completed_jobs as nat) + "\n"@
        + "superbook_jobs_total{status=\"failed\"} "@ + decimal(m.failed_jobs as nat) + "\n"@
        + "superbook_jobs_total{status=\"processing\"} "@ + decimal(m.active_jobs as nat) + "\n"@
        + "superbook_jobs_total{status=\"queued\"} "@ + decimal(queued as nat) + "\n"@
        + "\n# HELP superbook_pages_processed_total Total pages processed\n"@
        + "# TYPE superbook_pages_processed_total counter\n"@ + "superbook_pages_processed_total "@ + decimal(
        m.total_pages as nat,
    ) + "\n"@ + "\n# HELP superbook_avg_processing_seconds Average job processing time\n"@
        + "# TYPE superbook_avg_processing_seconds gauge\n"@ + "superbook_avg_processing_seconds "@ + two_decimals(
        avg_hundredths(m.total_processing_ms, m.completed_jobs),
    ) + "\n"@ + "\n# HELP superbook_batches_total Total batches by status\n"@
        + "# TYPE superbook_batches_total counter\n"@ + "superbook_batches_total{status=\"completed\"} "@ + decimal(
        m.completed_batches as nat,
    ) + "\n"@ + "superbook_batches_total{status=\"processing\"} "@ + decimal(m.active_batches as nat) + "\n"@
        + "\n# HELP superbook_uptime_seconds Server uptime in seconds\n"@
        + "# TYPE superbook_uptime_seconds gauge\n"@ + "superbook_uptime_seconds "@ + decimal(uptime as nat)
        + "\n"@ + "\n# HELP superbook_websocket_connections Active WebSocket connections\n"@
        + "# TYPE superbook_websocket_connections gauge\n"@ + "superbook_websocket_connections "@ + decimal(
        ws as nat,
    ) + "\n"@ + "\n# HELP superbook_workers Worker count\n"@ + "# TYPE superbook_workers gauge\n"@
        + "superbook_workers "@ + decimal(workers as nat) + "\n"@
}

impl MetricsCollector {
    /// All counters zero, started at time zero with no start text.
    pub fn new() -> (r: MetricsCollector)
        ensures
            r.started_at_secs == 0 && r.started_at_str@.len() == 0,
            r.total_jobs == 0 && r.completed_jobs == 0 && r.failed_jobs == 0 && r.active_jobs == 0,
            r.total_processing_ms == 0 && r.total_pages == 0,
            r.total_batches == 0 && r.completed_batches == 0 && r.active_batches == 0,
    {
        MetricsCollector {
            started_at_secs: 0,
            started_at_str: String::new(),
            total_jobs: 0,
            completed_jobs: 0,
            failed_jobs: 0,
            active_jobs: 0,
            total_processing_ms: 0,
            total_pages: 0,
            total_batches: 0,
            completed_batches: 0,
            active_batches: 0,
        }
    }

    pub fn record_job_started(&mut self)
        ensures
            final(self).total_jobs == wrapping_add(old(self).total_jobs, 1),
            final(self).active_jobs == wrapping_add(old(self).active_jobs, 1),
            final(self).completed_jobs == old(self).completed_jobs && final(self).failed_jobs == old(self).failed_jobs,
            final(self).total_batches == old(self).total_batches && final(self).active_batches == old(self).active_batches,
    {
        self.total_jobs = self.total_jobs.wrapping_add(1);
        self.active_jobs = self.active_jobs.wrapping_add(1);
    }

    pub fn record_job_completed(&mut self, duration_ms: u64, pages: u64)
        ensures
            final(self).completed_jobs == wrapping_add(old(self).completed_jobs, 1),
            final(self).active_jobs == wrapping_sub(old(self).active_jobs, 1),
            final(self).total_processing_ms == wrapping_add(old(self).total_processing_ms, duration_ms),
            final(self).total_pages == wrapping_add(old(self).total_pages, pages),
            final(self).total_jobs == old(self).total_jobs && final(self).failed_jobs == old(self).failed_jobs,
            final(self).total_batches == old(self).total_batches && final(self).active_batches == old(self).active_batches,
            final(self).completed_batches == old(self).completed_batches,
    {
        self.completed_jobs = self.completed_jobs.wrapping_add(1);
        self.active_jobs = self.active_jobs.wrapping_sub(1);
        self.total_processing_ms = self.total_processing_ms.wrapping_add(duration_ms);
        self.total_pages = self.total_pages.wrapping_add(pages);
    }

    pub fn record_job_failed(&mut self)
        ensures
            final(self).failed_jobs == wrapping_add(old(self).failed_jobs, 1),
            final(self).active_jobs == wrapping_sub(old(self).active_jobs, 1),
            final(self).total_jobs == old(self).total_jobs && final(self).completed_jobs == old(self).completed_jobs,
            final(self).total_batches == old(self).total_batches && final(self).active_batches == old(self).active_batches,
    {
        self.failed_jobs = self.failed_jobs.wrapping_add(1);
        self.active_jobs = self.active_jobs.wrapping_sub(1);
    }

    pub fn record_batch_started(&mut self)
        ensures
            final(self).total_batches == wrapping_add(old(self).total_batches, 1),
            final(self).active_batches == wrapping_add(old(self).active_batches, 1),
            final(self).completed_batches == old(self).completed_batches,
            final(self).total_jobs == old(self).total_jobs && final(self).active_jobs == old(self).active_jobs,
    {
        self.total_batches = self.total_batches.wrapping_add(1);
        self.active_batches = self.active_batches.wrapping_add(1);
    }

    pub fn record_batch_completed(&mut self)
        ensures
            final(self).completed_batches == wrapping_add(old(self).completed_batches, 1),
            final(self).active_batches == wrapping_sub(old(self).active_batches, 1),
            final(self).total_batches == old(self).total_batches,
            final(self).total_jobs == old(self).total_jobs && final(self).active_jobs == old(self).active_jobs,
    {
        self.completed_batches = self.completed_batches.wrapping_add(1);
        self.active_batches = self.active_batches.wrapping_sub(1);
    }

    /// Seconds since the start, or 0 for a clock behind it.
    pub fn get_uptime(&self, now_secs: u64) -> (r: u64)
        ensures
            r == if now_secs >= self.started_at_secs { now_secs - self.started_at_secs } else { 0 },
    {
        now_secs.saturating_sub(self.started_at_secs)
    }

    pub fn get_job_statistics(&self, queued_jobs: u64) -> (r: JobStatistics)
        ensures
            r == (JobStatistics {
                total_jobs: self.total_jobs,
                completed_jobs: self.completed_jobs,
                failed_jobs: self.failed_jobs,
                active_jobs: self.active_jobs,
                queued_jobs,
                total_processing_ms: self.total_processing_ms,
                total_pages_processed: self.total_pages,
            }),
    {
        JobStatistics {
            total_jobs: self.total_jobs,
            completed_jobs: self.completed_jobs,
            failed_jobs: self.failed_jobs,
            active_jobs: self.active_jobs,
            queued_jobs,
            total_processing_ms: self.total_processing_ms,
            total_pages_processed: self.total_pages,
        }
    }

    pub fn get_batch_statistics(&self) -> (r: BatchStatistics)
        ensures
            r == (BatchStatistics {
                total: self.total_batches,
                completed: self.completed_batches,
                processing: self.active_batches,
            }),
    {
        BatchStatistics { total: self.total_batches, completed: self.completed_batches, processing: self.active_batches }
    }

    pub fn get_server_info(&self, version: &str, now_secs: u64) -> (r: ServerInfo)
        ensures
            r.version@ == version@,
            r.uptime_seconds == if now_secs >= self.started_at_secs { now_secs - self.started_at_secs } else { 0 },
            r.started_at@ == self.started_at_str@,
    {
        ServerInfo {
            version: version.to_owned(),
            uptime_seconds: self.get_uptime(now_secs),
            started_at: self.started_at_str.clone(),
        }
    }

    fn avg_text(&self) -> (r: String)
        ensures
            r@ == two_decimals(avg_hundredths(self.total_processing_ms, self.completed_jobs)),
    {
        let c = self.completed_jobs as u128;
        let h: u128 = if c == 0 { 0 } else { ((self.total_processing_ms as u128) + 5 * c) / (10 * c) };
        assert(h <= 0xffff_ffff_ffff_ffff) by (nonlinear_arith)
            requires c == 0 ==> h == 0, c > 0 ==> h == (self.total_processing_ms + 5 * c) / (10 * c),
                self.total_processing_ms <= 0xffff_ffff_ffff_ffff;
        let h = h as u64;
        let mut s = decimal_string(h / 100);
        s.append(".");
        let tens = decimal_string((h % 100) / 10);
        let ones = decimal_string(h % 10);
        s.append(tens.as_str());
        s.append(ones.as_str());
        proof {
            reveal_strlit(".");
            assert(decimal(((h % 100) / 10) as nat) =~= seq![digit(((h % 100) / 10) as nat)]);
            assert(decimal((h % 10) as nat) =~= seq![digit((h % 10) as nat)]);
        }
        assert(s@ =~= two_decimals(h as nat));
        s
    }

    /// The counters in the Prometheus text format.
    pub fn format_prometheus(&self, queued_jobs: u64, websocket_connections: usize, worker_count: usize, now_secs: u64) -> (r:
        String)
        ensures
            r@ == prometheus_text(
                *self,
                queued_jobs,
                websocket_connections,
                worker_count,
                if now_secs >= self.started_at_secs { (now_secs - self.started_at_secs) as u64 } else { 0 },
            ),
    {
        let mut o = String::from_str("# HELP superbook_jobs_total Total number of jobs by status\n");
        o.append("# TYPE superbook_jobs_total counter\n");
        o.append("superbook_jobs_total{status=\"completed\"} ");
        o.append(decimal_string(self.completed_jobs).as_str());
        o.append("\n");
        o.append("superbook_jobs_total{status=\"failed\"} ");
        o.append(decimal_string(self.failed_jobs).as_str());
        o.append("\n");
        o.append("superbook_jobs_total{status=\"processing\"} ");
        o.append(decimal_string(self.active_jobs).as_str());
        o.append("\n");
        o.append("superbook_jobs_total{status=\"queued\"} ");
        o.append(decimal_string(queued_jobs).as_str());
        o.append("\n");
        o.append("\n# HELP superbook_pages_processed_total Total pages processed\n");
        o.append("# TYPE superbook_pages_processed_total counter\n");
        o.append("superbook_pages_processed_total ");
        o.append(decimal_string(self.total_pages).as_str());
        o.append("\n");
        o.append("\n# HELP superbook_avg_processing_seconds Average job processing time\n");
        o.append("# TYPE superbook_avg_processing_seconds gauge\n");
        o.append("superbook_avg_processing_seconds ");
        o.append(self.avg_text().as_str());
        o.append("\n");
        o.append("\n# HELP superbook_batches_total Total batches by status\n");
        o.append("# TYPE superbook_batches_total counter\n");
        o.append("superbook_batches_total{status=\"completed\"} ");
        o.append(decimal_string(self.completed_batches).as_str());
        o.append("\n");
        o.append("superbook_batches_total{status=\"processing\"} ");
        o.append(decimal_string(self.active_batches).as_str());
        o.append("\n");
        o.append("\n# HELP superbook_uptime_seconds Server uptime in seconds\n");
        o.append("# TYPE superbook_uptime_seconds gauge\n");
        o.append("superbook_uptime_seconds ");
        o.append(decimal_string(self.get_uptime(now_secs)).as_str());
        o.append("\n");
        o.append("\n# HELP superbook_websocket_connections Active WebSocket connections\n");
        o.append("# TYPE superbook_websocket_connections gauge\n");
        o.append("superbook_websocket_connections ");
        o.append(decimal_string(websocket_connections as u64).as_str());
        o.append("\n");
        o.append("\n# HELP superbook_workers Worker count\n");
        o.append("# TYPE superbook_workers gauge\n");
        o.append("superbook_workers ");
        o.append(decimal_string(worker_count as u64).as_str());
        o.append("\n");
        o
    }
}

impl Default for MetricsCollector {
    fn default() -> (r: MetricsCollector)
        ensures
            r.total_jobs == 0 && r.total_batches == 0 && r.started_at_secs == 0,
    {
        MetricsCollector::new()
    }
}

} // verus!
