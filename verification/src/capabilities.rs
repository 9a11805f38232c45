//! What this engine implements, what it defers, and the limits it keeps.

use vstd::prelude::*;

verus! {

pub const REPORT_FORMAT: &'static str = "shardmeld-report";

pub const REPORT_VERSION: u32 = 1;

/// The engine's version.
pub const ENGINE_VERSION: &'static str = "2.0.0";

/// The engine's capabilities.
#[derive(Debug, Clone, PartialEq, Eq)]
pub struct CapabilitiesReport {
    pub report_format: String,
    pub report_version: u32,
    pub engine_version: String,
    pub implemented: Vec<String>,
    pub deferred: Vec<String>,
    pub limits: Vec<String>,
}

/// The features implemented.
pub open spec fn implemented_features() -> Seq<Seq<char>> {
    seq![
        "authorized-local-cdc-index"@,
        "exact-sha256-reconstruction"@,
        "bittorrent-v1-single-file"@,
        "http-https-udp-trackers"@,
        "multitracker-tiers"@,
        "verified-piece-resume"@,
        "four-peer-concurrency"@,
        "rarest-first"@,
        "work-conserving-speed-adaptation"@,
        "safe-piece-endgame"@,
        "standard-cancel"@,
        "magnet-v1-local-metadata-binding"@,
        "verified-file-upload-seeding"@,
        "on-demand-index-piece-seeding"@,
        "smd-v0.1-devnet-wallets"@,
        "smd-v0.1-account-ledger"@,
        "smd-v0.1-permanent-reserve"@,
        "smd-v0.1-fixed-supply"@,
        "smd-v0.1-signed-contribution-receipts"@,
        "smd-v0.1-useful-contribution-rewards"@,
        "smd-v0.1-decreasing-emission"@,
        "smd-v0.1-free-lane"@,
        "smd-macos-keychain-wallets"@,
        "smd-ledger-state-audit"@,
    ]
}

/// The features deferred to later versions.
pub open spec fn deferred_features() -> Seq<Seq<char>> {
    seq![
        "dht"@,
        "magnet-metadata-exchange"@,
        "peer-exchange"@,
        "bittorrent-v2-hybrid"@,
        "multi-file-torrents"@,
        "gui"@,
        "smd-mainnet"@,
        "smd-mainnet-wallet-recovery"@,
        "smd-distributed-consensus"@,
        "smd-sybil-resistant-rewards"@,
        "smd-real-money-exchange"@,
        "smd-real-resource-pricing"@,
    ]
}

/// The limits the engine keeps.
pub open spec fn engine_limits() -> Seq<Seq<char>> {
    seq![
        "explicitly-authorized-index-roots-only"@,
        "single-file-v1-torrents-only"@,
        "piece-level-resume"@,
        "piece-level-endgame"@,
        "maximum-four-active-peers"@,
        "serial-upload-connections"@,
        "manual-upload-tracker-registration"@,
        "smd-devnet-only"@,
        "smd-devnet-authority-ordering"@,
        "smd-explicit-test-wallet-files-contain-private-keys"@,
        "smd-user-resource-fee-disabled"@,
        "smd-receiver-signatures-do-not-solve-sybil-attacks"@,
    ]
}

pub open spec fn strings_of(v: Seq<String>) -> Seq<Seq<char>> {
    v.map_values(|s: String| s@)
}

fn strings(items: &[&str]) -> (out: Vec<String>)
    ensures
        out@.len() == items@.len(),
        forall|i: int| 0 <= i < items@.len() ==> #[trigger] out@[i]@ == items@[i]@,
{
    let mut out: Vec<String> = Vec::new();
    let mut i: usize = 0;
    while i < items.len()
        invariant
            i <= items@.len(),
            out@.len() == i,
            forall|j: int| 0 <= j < i ==> #[trigger] out@[j]@ == items@[j]@,
        decreases items@.len() - i,
    {
        out.push(String::from_str(items[i]));
        i = i + 1;
    }
    out
}

/// The engine's capabilities report.
pub fn capabilities_report() -> (report: CapabilitiesReport)
    ensures
        report.report_format@ == REPORT_FORMAT@,
        report.report_version == REPORT_VERSION,
        report.engine_version@ == ENGINE_VERSION@,
        strings_of(report.implemented@) == implemented_features(),
        strings_of(report.deferred@) == deferred_features(),
        strings_of(report.limits@) == engine_limits(),
{
    let implemented = strings(
        &[
            "authorized-local-cdc-index",
            "exact-sha256-reconstruction",
            "bittorrent-v1-single-file",
            "http-https-udp-trackers",
            "multitracker-tiers",
            "verified-piece-resume",
            "four-peer-concurrency",
            "rarest-first",
            "work-conserving-speed-adaptation",
            "safe-piece-endgame",
            "standard-cancel",
            "magnet-v1-local-metadata-binding",
            "verified-file-upload-seeding",
            "on-demand-index-piece-seeding",
            "smd-v0.1-devnet-wallets",
            "smd-v0.1-account-ledger",
            "smd-v0.1-permanent-reserve",
            "smd-v0.1-fixed-supply",
            "smd-v0.1-signed-contribution-receipts",
            "smd-v0.1-useful-contribution-rewards",
            "smd-v0.1-decreasing-emission",
            "smd-v0.1-free-lane",
            "smd-macos-keychain-wallets",
            "smd-ledger-state-audit",
        ],
    );
    let deferred = strings(
        &[
            "dht",
            "magnet-metadata-exchange",
            "peer-exchange",
            "bittorrent-v2-hybrid",
            "multi-file-torrents",
            "gui",
            "smd-mainnet",
            "smd-mainnet-wallet-recovery",
            "smd-distributed-consensus",
            "smd-sybil-resistant-rewards",
            "smd-real-money-exchange",
            "smd-real-resource-pricing",
        ],
    );
    let limits = strings(
        &[
            "explicitly-authorized-index-roots-only",
            "single-file-v1-torrents-only",
            "piece-level-resume",
            "piece-level-endgame",
            "maximum-four-active-peers",
            "serial-upload-connections",
            "manual-upload-tracker-registration",
            "smd-devnet-only",
            "smd-devnet-authority-ordering",
            "smd-explicit-test-wallet-files-contain-private-keys",
            "smd-user-resource-fee-disabled",
            "smd-receiver-signatures-do-not-solve-sybil-attacks",
        ],
    );
    assert(strings_of(implemented@) =~= implemented_features());
    assert(strings_of(deferred@) =~= deferred_features());
    assert(strings_of(limits@) =~= engine_limits());
    CapabilitiesReport {
        report_format: String::from_str(REPORT_FORMAT),
        report_version: REPORT_VERSION,
        engine_version: String::from_str(ENGINE_VERSION),
        implemented,
        deferred,
        limits,
    }
}


/// No deferred feature is claimed as implemented.
pub proof fn law_deferred_not_implemented()
    ensures
        forall|i: int, j: int|
            0 <= i < implemented_features().len() && 0 <= j < deferred_features().len()
                ==> #[trigger] implemented_features()[i] != #[trigger] deferred_features()[j],
{
    reveal_strlit("authorized-local-cdc-index");
    reveal_strlit("exact-sha256-reconstruction");
    reveal_strlit("bittorrent-v1-single-file");
    reveal_strlit("http-https-udp-trackers");
    reveal_strlit("multitracker-tiers");
    reveal_strlit("verified-piece-resume");
    reveal_strlit("four-peer-concurrency");
    reveal_strlit("rarest-first");
    reveal_strlit("work-conserving-speed-adaptation");
    reveal_strlit("safe-piece-endgame");
    reveal_strlit("standard-cancel");
    reveal_strlit("magnet-v1-local-metadata-binding");
    reveal_strlit("verified-file-upload-seeding");
    reveal_strlit("on-demand-index-piece-seeding");
    reveal_strlit("smd-v0.1-devnet-wallets");
    reveal_strlit("smd-v0.1-account-ledger");
    reveal_strlit("smd-v0.1-permanent-reserve");
    reveal_strlit("smd-v0.1-fixed-supply");
    reveal_strlit("smd-v0.1-signed-contribution-receipts");
    reveal_strlit("smd-v0.1-useful-contribution-rewards");
    reveal_strlit("smd-v0.1-decreasing-emission");
    reveal_strlit("smd-v0.1-free-lane");
    reveal_strlit("smd-macos-keychain-wallets");
    reveal_strlit("smd-ledger-state-audit");
    reveal_strlit("dht");
    reveal_strlit("magnet-metadata-exchange");
    reveal_strlit("peer-exchange");
    reveal_strlit("bittorrent-v2-hybrid");
    reveal_strlit("multi-file-torrents");
    reveal_strlit("gui");
    reveal_strlit("smd-mainnet");
    reveal_strlit("smd-mainnet-wallet-recovery");
    reveal_strlit("smd-distributed-consensus");
    reveal_strlit("smd-sybil-resistant-rewards");
    reveal_strlit("smd-real-money-exchange");
    reveal_strlit("smd-real-resource-pricing");
    assert forall|i: int, j: int|
        0 <= i < implemented_features().len() && 0 <= j < deferred_features().len()
            implies #[trigger] implemented_features()[i] != #[trigger] deferred_features()[j] by {
        let a = implemented_features()[i];
        let b = deferred_features()[j];
        if a.len() == b.len() {
            assert(a[0] != b[0] || a[1] != b[1] || a[2] != b[2] || a[3] != b[3] || a[4] != b[4]
                || a[5] != b[5] || a[6] != b[6] || a[7] != b[7] || a[8] != b[8] || a[9] != b[9]);
        }
    }
}

} // verus!
