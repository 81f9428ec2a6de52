//! The full anomaly pass with the real clustering: features from the
//! library, a 3-way k-means fit under the Chebyshev metric with a fixed
//! seed, and the library's verified threshold rule over the labels.
use linfa::traits::{Fit, Predict};
use linfa::DatasetBase;
use linfa_clustering::KMeans;
use linfa_nn::distance::LInfDist;
use ndarray::Array2;
use rand_xoshiro::rand_core::SeedableRng;
use rand_xoshiro::Xoshiro256Plus;

use netwatch::detect::{compute_rate, dos_detect, extract_features};
use netwatch::record::FormatedPacket;

fn rec(number: u32, src: &str, dst: &str, protocol: &str, lenght: usize, ts: u64) -> FormatedPacket {
    FormatedPacket {
        number,
        time: "00:00:00".to_string(),
        src_ip: src.to_string(),
        dst_ip: dst.to_string(),
        protocol: protocol.to_string(),
        lenght,
        info: String::new(),
        detailed_info: None,
        timestamp: ts,
    }
}

fn kmeans_labels(packets: &Vec<FormatedPacket>) -> Vec<usize> {
    let features = extract_features(packets);
    let rate = compute_rate(packets);
    let rate_f = if rate.span_micros > 0 {
        rate.packets as f64 * 1_000_000.0 / rate.span_micros as f64
    } else {
        0.0
    };
    let mut flat: Vec<f64> = Vec::new();
    for f in &features {
        flat.push(f.src_freq as f64);
        flat.push(f.dst_freq as f64);
        flat.push(f.protocol_code as f64);
        flat.push(rate_f);
        flat.push(f.byte_length as f64);
    }
    let array = Array2::from_shape_vec((features.len(), 5), flat).expect("rectangular matrix");
    let dataset = DatasetBase::from(array);
    let rng = Xoshiro256Plus::seed_from_u64(42);
    let model = KMeans::params_with(3, rng, LInfDist)
        .max_n_iterations(200)
        .tolerance(1e-5)
        .fit(&dataset)
        .expect("k-means fits");
    model.predict(dataset).targets().iter().cloned().collect()
}

#[test]
fn synthetic_burst_is_flagged_through_real_clustering() {
    // 30 records, one source and one destination, 40 bytes each, spanning a
    // tenth of a second: the session rate of 300/s crosses the threshold no
    // matter how the records fall into clusters.
    let mut packets = Vec::new();
    for k in 0..30u32 {
        let ts = if k == 29 { 100_000 } else { (k as u64) * 3_000 };
        packets.push(rec(k + 1, "10.0.0.5", "10.0.0.1", "UDP", 40, ts));
    }
    let labels = kmeans_labels(&packets);
    assert_eq!(labels.len(), 30);
    assert!(labels.iter().all(|&l| l < 3));
    let flagged = dos_detect(&packets, &labels);
    assert!(flagged.len() >= 1);
    let total: usize = flagged.iter().map(|d| d.count).sum();
    assert!(total >= 1);
}

#[test]
fn clustering_is_deterministic_for_a_fixed_snapshot() {
    let mut packets = Vec::new();
    for k in 0..20u32 {
        packets.push(rec(
            k + 1,
            &format!("10.0.0.{}", k % 4),
            "10.9.9.9",
            if k % 2 == 0 { "TCP" } else { "UDP" },
            (40 + 100 * (k % 3)) as usize,
            (k as u64) * 1_000,
        ));
    }
    let a = kmeans_labels(&packets);
    let b = kmeans_labels(&packets);
    assert_eq!(a, b);
}
