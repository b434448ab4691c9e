use data_compactor::json::{datum_from_text, datum_to_text};
use data_compactor::value::Datum;
use data_compactor::{DataCompactor, EfficientCompactor, TrulyEfficientCompactor};

fn count_of(data: &Datum) -> usize {
    match data.get("subresources") {
        Some(Datum::Array(items)) => items.len(),
        _ => panic!("no subresources"),
    }
}

/// All three compactors on the same realistic input.
#[test]
fn test_all_compactors_comparison() {
    let test_data = datum_from_text(
        r#"{
            "subresources": [
                {
                    "url": "https://common.terraphim.io/01k2cxga1cqmqsgvqk0enxq8a5",
                    "resource_type": "https://common.terraphim.io/01jxw2jx8qze6yakh4fz24mnhy/class/company-information-and-history-step",
                    "json_format": "{\"@id\": \"https://common.terraphim.io/01k2cxga1cqmqsgvqk0enxq8a5\", \"https://common.terraphim.io/01jxw2jx8qze6yakh4fz24mnhy/property/company-name\": \"EcoBright Solutions Uganda Limited\", \"https://common.terraphim.io/01jxw2jx8qze6yakh4fz24mnhy/property/year-of-incorporation\": 2020}",
                    "json_ad_format": "{\"@id\": \"https://common.terraphim.io/01k2cxga1cqmqsgvqk0enxq8a5\", \"https://common.terraphim.io/01jxw2jx8qze6yakh4fz24mnhy/property/company-name\": \"EcoBright Solutions Uganda Limited\", \"https://atomicdata.dev/properties/isA\": [\"https://common.terraphim.io/01jxw2jx8qze6yakh4fz24mnhy/class/company-information-and-history-step\"]}",
                    "https://common.terraphim.io/01jxw2jx8qze6yakh4fz24mnhy/property/company-name": "EcoBright Solutions Uganda Limited",
                    "https://common.terraphim.io/01jxw2jx8qze6yakh4fz24mnhy/property/company-description": "EcoBright Solutions Uganda Limited is an innovative clean energy company based in Kampala, Uganda. Founded in 2020, the company specializes in providing sustainable solar energy solutions for both residential and commercial customers across East Africa.",
                    "https://common.terraphim.io/01jxw2jx8qze6yakh4fz24mnhy/property/year-of-incorporation": 2020,
                    "https://common.terraphim.io/01jxw2jx8qze6yakh4fz24mnhy/property/country-of-registration": "Uganda",
                    "https://common.terraphim.io/01jxw2jx8qze6yakh4fz24mnhy/property/business-website": "https://ecobright-uganda.com",
                    "https://atomicdata.dev/properties/isA": ["https://common.terraphim.io/01jxw2jx8qze6yakh4fz24mnhy/class/company-information-and-history-step"],
                    "https://atomicdata.dev/properties/parent": "https://common.terraphim.io/01k2cxg9ndzyyfd357hz7npa38",
                    "https://atomicdata.dev/properties/lastCommit": "https://common.terraphim.io/01k2cxga1cqmqsgvqk0enxq8a6"
                },
                {
                    "url": "https://common.terraphim.io/01k2cxga6pywwjg8yc2m6b1jzz",
                    "resource_type": "https://common.terraphim.io/01jxw2jx8qze6yakh4fz24mnhy/class/management-governance-and-ownership-step",
                    "json_format": "{\"@id\": \"https://common.terraphim.io/01k2cxga6pywwjg8yc2m6b1jzz\", \"https://common.terraphim.io/01jxw2jx8qze6yakh4fz24mnhy/property/company-name\": \"EcoBright Solutions Uganda Limited\", \"https://common.terraphim.io/01jxw2jx8qze6yakh4fz24mnhy/property/board-of-directors\": \"Sarah Nakamura (Chairperson), James Okello (CEO), Dr. Maria Gonzalez (CTO)\"}",
                    "json_ad_format": "{\"@id\": \"https://common.terraphim.io/01k2cxga6pywwjg8yc2m6b1jzz\", \"https://common.terraphim.io/01jxw2jx8qze6yakh4fz24mnhy/property/company-name\": \"EcoBright Solutions Uganda Limited\", \"https://atomicdata.dev/properties/isA\": [\"https://common.terraphim.io/01jxw2jx8qze6yakh4fz24mnhy/class/management-governance-and-ownership-step\"]}",
                    "https://common.terraphim.io/01jxw2jx8qze6yakh4fz24mnhy/property/company-name": "EcoBright Solutions Uganda Limited",
                    "https://common.terraphim.io/01jxw2jx8qze6yakh4fz24mnhy/property/board-of-directors": "Sarah Nakamura (Chairperson), James Okello (CEO), Dr. Maria Gonzalez (CTO)",
                    "https://common.terraphim.io/01jxw2jx8qze6yakh4fz24mnhy/property/key-management-personnel": "James Okello - Chief Executive Officer with 15 years experience in renewable energy; Dr. Maria Gonzalez - Chief Technology Officer, PhD in Solar Engineering; Samuel Kiprotich - Chief Financial Officer, CPA with 10 years experience",
                    "https://common.terraphim.io/01jxw2jx8qze6yakh4fz24mnhy/property/business-owners": "Sarah Nakamura (45%), James Okello (35%), EcoVest Capital (20%)",
                    "https://atomicdata.dev/properties/isA": ["https://common.terraphim.io/01jxw2jx8qze6yakh4fz24mnhy/class/management-governance-and-ownership-step"],
                    "https://atomicdata.dev/properties/parent": "https://common.terraphim.io/01k2cxg9ndzyyfd357hz7npa38",
                    "https://atomicdata.dev/properties/lastCommit": "https://common.terraphim.io/01k2cxga6pywwjg8yc2m6b1j00"
                }
            ]
        }"#,
    )
    .unwrap();

    let original_json = datum_to_text(&test_data).unwrap();
    let original_size = original_json.len();

    println!("=== COMPACTOR COMPARISON TEST ===");
    println!("Original data size: {} bytes", original_size);

    let mut compactor1 = DataCompactor::new();
    let result1 = compactor1.compact_comprehensive_data(&test_data).unwrap();
    let compacted1_json = datum_to_text(&result1.to_datum()).unwrap();

    println!("1. IN-PLACE COMPACTOR:");
    println!("   Compacted size: {} bytes", compacted1_json.len());
    println!("   Compression ratio: {} ppm", result1.stats.compression_ratio_ppm());

    let mut compactor2 = EfficientCompactor::new();
    let result2 = compactor2.compact_comprehensive_data(&test_data).unwrap();
    let compacted2_json = datum_to_text(&result2.to_datum()).unwrap();

    println!("2. EFFICIENT COMPACTOR (Columnar):");
    println!("   Compacted size: {} bytes", compacted2_json.len());
    println!("   Compression ratio: {} ppm", result2.stats.compression_ratio_ppm());

    let mut compactor3 = TrulyEfficientCompactor::new();
    let result3 = compactor3.compact(&test_data).unwrap();

    println!("3. TRULY EFFICIENT COMPACTOR (Aggressive):");
    println!("   Compacted size: {} bytes", result3.stats.comp);
    println!("   Compression ratio: {} ppm", result3.stats.ratio_ppm());

    println!("=== WINNER ANALYSIS ===");

    let sizes = vec![
        ("In place", compacted1_json.len()),
        ("Efficient", compacted2_json.len()),
        ("Truly Efficient", result3.stats.comp),
    ];

    let best = sizes.iter().min_by_key(|(_, size)| *size).unwrap();

    println!("Best compactor: {} ({} bytes)", best.0, best.1);

    if best.1 < original_size {
        println!("Best compactor achieves real compression!");
    } else {
        println!("Even the best compactor makes data LARGER!");
    }

    println!("=== RECONSTRUCTION TEST FOR BEST COMPACTOR ===");
    match best.0 {
        "Truly Efficient" => {
            let reconstructed = TrulyEfficientCompactor::reconstruct(&result3).unwrap();
            let orig_len = count_of(&test_data);
            let recon_len = count_of(&reconstructed);
            println!("Reconstruction: {} -> {} resources", orig_len, recon_len);
            assert_eq!(orig_len, recon_len, "Reconstruction should preserve resource count");
        }
        "Efficient" => {
            let reconstructed = EfficientCompactor::reconstruct_data(&result2).unwrap();
            let orig_len = count_of(&test_data);
            let recon_len = count_of(&reconstructed);
            println!("Reconstruction: {} -> {} resources", orig_len, recon_len);
            assert_eq!(orig_len, recon_len, "Reconstruction should preserve resource count");
        }
        _ => {
            println!("The in-place compactor has no reconstruction test");
        }
    }
}
