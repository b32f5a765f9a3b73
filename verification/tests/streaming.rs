use forgia::streaming::{
    check_manifest_shape, decide_cell, CellAction, check_streaming_genome, GenomeFacts, GenomeProblem, stream_diagnosis, stream_severity, GenMsBuckets, StreamDiagnosis, StreamHealthFacts,
    GEN_MS_BUCKET_COUNT, EvictionCounters, EvictionLog, EvictionReason, FoliageCoverageReport,
    ManifestShapeError, RECENT_EVICTIONS_CAP, SCHEMA_VERSION,
};

#[test]
fn stats_record_eviction_caps_recent() {
    let mut log: EvictionLog<u32> = EvictionLog::new();
    for i in 0..(RECENT_EVICTIONS_CAP as u32 + 10) {
        log.record_eviction(EvictionReason::Distance, i);
    }
    assert_eq!(log.recent.len(), RECENT_EVICTIONS_CAP);
    assert_eq!(log.counters.distance, RECENT_EVICTIONS_CAP as u32 + 10);
    assert_eq!(*log.recent.front().unwrap(), 10, "the oldest events leave first");
    assert_eq!(*log.recent.back().unwrap(), RECENT_EVICTIONS_CAP as u32 + 9);
}

#[test]
fn counters_count_each_reason_apart() {
    let mut c = EvictionCounters::default();
    c.record(EvictionReason::Budget);
    c.record(EvictionReason::Budget);
    c.record(EvictionReason::Manual);
    c.record(EvictionReason::LodDemotion);
    assert_eq!((c.distance, c.budget, c.lod_demotion, c.manual), (0, 2, 1, 1));
    assert_eq!(c.total(), 4);
}

#[test]
fn foliage_coverage_default_is_zero() {
    let r = FoliageCoverageReport::default();
    assert_eq!(r.chunks_loaded, 0);
    assert_eq!(r.chunks_with_veg, 0);
    assert_eq!(r.without_veg(), 0);
}

#[test]
fn foliage_coverage_without_veg_saturating() {
    let r = FoliageCoverageReport { chunks_loaded: 3, chunks_with_veg: 10 };
    assert_eq!(r.without_veg(), 0);
}

#[test]
fn foliage_coverage_without_veg_arithmetic() {
    let r = FoliageCoverageReport { chunks_loaded: 50, chunks_with_veg: 42 };
    assert_eq!(r.without_veg(), 8);
}

#[test]
fn un_manifeste_vide_est_une_erreur_pas_un_cas_limite() {
    assert_eq!(check_manifest_shape(SCHEMA_VERSION, 0), Err(ManifestShapeError::Vide));
}

#[test]
fn une_version_inconnue_se_refuse_en_le_disant() {
    assert_eq!(
        check_manifest_shape(2, 4),
        Err(ManifestShapeError::Version { trouvee: 2, attendue: 1 })
    );
    assert_eq!(
        check_manifest_shape(2, 0),
        Err(ManifestShapeError::Version { trouvee: 2, attendue: 1 }),
        "the version is checked before the emptiness"
    );
}

#[test]
fn un_manifeste_valide_se_lit() {
    assert_eq!(check_manifest_shape(SCHEMA_VERSION, 40), Ok(()));
}

#[test]
fn histogram_buckets_count_and_locate_percentiles() {
    let mut h = GenMsBuckets::default();
    // 0.5, 0.8, 2, 3, 5, 10 and 50 ms fall in buckets 0, 0, 1, 1, 2, 3 and 5.
    for b in [0usize, 0, 1, 1, 2, 3, 5] {
        h.record_bucket(b);
    }
    assert_eq!(h.sample_count, 7);
    assert_eq!(&h.buckets[..6], &[2, 2, 1, 1, 0, 1]);
    // p99 of 7 samples: target 6, reached at bucket 3 (cumulative 2, 4, 5, 6).
    assert_eq!(h.bucket_reaching(6), Some(3));
    // p50: target 3, reached at bucket 1.
    assert_eq!(h.bucket_reaching(3), Some(1));
    assert_eq!(h.bucket_reaching(0), Some(0));
    assert_eq!(h.bucket_reaching(8), None);
}

#[test]
fn histogram_percentile_bucket_grows_with_the_target() {
    let mut h = GenMsBuckets::default();
    for b in [4usize, 4, 9, 15, 2, 2, 2, 11] {
        h.record_bucket(b);
    }
    let mut last = 0usize;
    for t in 0..=8u64 {
        let i = h.bucket_reaching(t).unwrap_or(GEN_MS_BUCKET_COUNT);
        assert!(i >= last);
        last = i;
    }
    assert_eq!(h.bucket_reaching(9), None);
}

#[test]
fn histogram_counts_saturate() {
    let mut h = GenMsBuckets::default();
    h.buckets[7] = u32::MAX;
    h.sample_count = u64::MAX;
    h.record_bucket(7);
    assert_eq!(h.buckets[7], u32::MAX);
    assert_eq!(h.sample_count, u64::MAX);
}

/// An idle stream with the default configuration (queue depth 8, coverage
/// threshold 4 chunks).
fn idle() -> StreamHealthFacts {
    StreamHealthFacts {
        pause_active: false,
        pending_load_count: 0,
        over_memory_budget: false,
        async_queue_depth: 0,
        max_queue_depth: 8,
        slow_generation: false,
        gen_sample_count: 0,
        coverage: FoliageCoverageReport::default(),
        coverage_warn_threshold: 4,
        coverage_gap_sustained: false,
    }
}

#[test]
fn severity_ok_when_idle() {
    assert_eq!(stream_severity(&idle()), "ok");
    assert_eq!(stream_diagnosis(&idle()), StreamDiagnosis::Healthy);
}

#[test]
fn severity_info_when_pause_with_pending() {
    let f = StreamHealthFacts { pause_active: true, pending_load_count: 3, ..idle() };
    assert_eq!(stream_severity(&f), "info");
}

#[test]
fn severity_warning_when_budget_exceeded() {
    let f = StreamHealthFacts { over_memory_budget: true, ..idle() };
    assert_eq!(stream_severity(&f), "warning");
    assert_eq!(stream_diagnosis(&f), StreamDiagnosis::OverMemoryBudget);
}

#[test]
fn severity_warning_when_queue_saturated() {
    let f = StreamHealthFacts { async_queue_depth: 8, ..idle() };
    assert_eq!(stream_severity(&f), "warning");
    assert_eq!(stream_diagnosis(&f), StreamDiagnosis::QueueSaturated);
}

#[test]
fn diagnose_pause_comes_first() {
    let f = StreamHealthFacts { pause_active: true, pending_load_count: 5, over_memory_budget: true, ..idle() };
    assert_eq!(stream_diagnosis(&f), StreamDiagnosis::PausedWithPending);
    let paused_idle = StreamHealthFacts { pause_active: true, ..idle() };
    assert_eq!(stream_diagnosis(&paused_idle), StreamDiagnosis::Healthy);
}

#[test]
fn severity_warning_when_coverage_gap_sustained() {
    let f = StreamHealthFacts {
        coverage: FoliageCoverageReport { chunks_loaded: 10, chunks_with_veg: 0 },
        coverage_gap_sustained: true,
        ..idle()
    };
    assert_eq!(stream_severity(&f), "warning");
    assert_eq!(stream_diagnosis(&f), StreamDiagnosis::FoliageCoverageGap);
}

#[test]
fn severity_ok_when_coverage_gap_below_sustained() {
    let f = StreamHealthFacts {
        coverage: FoliageCoverageReport { chunks_loaded: 10, chunks_with_veg: 0 },
        coverage_gap_sustained: false,
        ..idle()
    };
    assert_eq!(stream_severity(&f), "ok");
}

#[test]
fn severity_ok_when_coverage_full() {
    let f = StreamHealthFacts {
        coverage: FoliageCoverageReport { chunks_loaded: 100, chunks_with_veg: 100 },
        coverage_gap_sustained: true,
        ..idle()
    };
    assert_eq!(stream_severity(&f), "ok");
}

#[test]
fn slow_generation_warns_only_past_ten_samples_but_is_always_diagnosed() {
    let few = StreamHealthFacts { slow_generation: true, gen_sample_count: 10, ..idle() };
    assert_eq!(stream_severity(&few), "ok");
    assert_eq!(stream_diagnosis(&few), StreamDiagnosis::SlowGeneration);
    let many = StreamHealthFacts { gen_sample_count: 11, ..few };
    assert_eq!(stream_severity(&many), "warning");
}

/// The facts of a genome with the given radii, residence and budget.
fn genome(version: u32, sim: f32, view: f32, unload: f32, residence: f32, max_mb: f32, max_chunks: u32) -> GenomeFacts {
    GenomeFacts {
        schema_version: version,
        radii_positive: sim > 0.0 && view > 0.0 && unload > 0.0,
        simulation_within_view: !(sim > view),
        view_within_unload: !(view > unload),
        residence_non_negative: !(residence < 0.0),
        memory_budget_positive: !(max_mb <= 0.0),
        max_chunks,
    }
}

#[test]
fn default_genome_passes_validation() {
    assert_eq!(check_streaming_genome(&genome(1, 64.0, 96.0, 128.0, 2.0, 512.0, 256)), Ok(()));
}

#[test]
fn radii_inverted_rejected() {
    assert_eq!(
        check_streaming_genome(&genome(1, 200.0, 96.0, 128.0, 2.0, 512.0, 256)),
        Err(GenomeProblem::SimulationBeyondView)
    );
}

#[test]
fn view_greater_than_unload_rejected() {
    assert_eq!(
        check_streaming_genome(&genome(1, 64.0, 200.0, 100.0, 2.0, 512.0, 256)),
        Err(GenomeProblem::ViewBeyondUnload)
    );
}

#[test]
fn schema_version_mismatch_rejected() {
    assert_eq!(
        check_streaming_genome(&genome(99, -1.0, 96.0, 128.0, 2.0, 512.0, 0)),
        Err(GenomeProblem::SchemaVersion { found: 99, expected: 1 }),
        "the version is checked first"
    );
}

#[test]
fn non_positive_radii_residence_and_budget_are_rejected() {
    assert_eq!(check_streaming_genome(&genome(1, 0.0, 96.0, 128.0, 2.0, 512.0, 256)), Err(GenomeProblem::RadiiNotPositive));
    assert_eq!(check_streaming_genome(&genome(1, 64.0, 96.0, 128.0, -1.0, 512.0, 256)), Err(GenomeProblem::NegativeResidence));
    assert_eq!(check_streaming_genome(&genome(1, 64.0, 96.0, 128.0, 2.0, 0.0, 256)), Err(GenomeProblem::EmptyBudget));
    assert_eq!(check_streaming_genome(&genome(1, 64.0, 96.0, 128.0, 2.0, 512.0, 0)), Err(GenomeProblem::EmptyBudget));
}

/// Radii built as the cell streamer builds them: unloading lies one cell
/// beyond loading.
fn radii(load_m: f32, cell_m: f32) -> (f32, f32) {
    (load_m, load_m + cell_m.max(1.0))
}

fn decide(distance_m: f32, loaded: bool, (load_m, unload_m): (f32, f32)) -> CellAction {
    decide_cell(loaded, distance_m <= load_m, distance_m > unload_m)
}

#[test]
fn une_cellule_dans_le_rayon_se_charge_une_seule_fois() {
    let r = radii(100.0, 40.0);
    assert_eq!(decide(50.0, false, r), CellAction::Charger);
    assert_eq!(decide(50.0, true, r), CellAction::Garder);
}

#[test]
fn la_bande_d_hysteresis_ne_declenche_rien() {
    let r = radii(100.0, 40.0);
    let milieu = (r.0 + r.1) * 0.5;
    assert_eq!(decide(milieu, true, r), CellAction::Garder);
    assert_eq!(decide(milieu, false, r), CellAction::Garder);
}

#[test]
fn au_dela_du_rayon_de_dechargement_on_retire() {
    let r = radii(100.0, 40.0);
    assert_eq!(decide(r.1 + 0.1, true, r), CellAction::Decharger);
    assert_eq!(decide(r.1 + 0.1, false, r), CellAction::Garder);
}

#[test]
fn un_aller_retour_sur_la_frontiere_ne_produit_aucun_battement() {
    let r = radii(100.0, 40.0);
    let mut chargee = false;
    let mut chargements = 0;
    for i in 0..200 {
        let d = 100.0 + if i % 2 == 0 { -0.5 } else { 0.5 };
        match decide(d, chargee, r) {
            CellAction::Charger => {
                chargee = true;
                chargements += 1;
            }
            CellAction::Decharger => chargee = false,
            CellAction::Garder => {}
        }
    }
    assert_eq!(chargements, 1, "{chargements} chargements au lieu d'un seul");
}
