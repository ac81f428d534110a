use carapace::oci::{
    import_raw, put_blob, put_steps, to_canonical_json, write_layout, FileStep, Layout, ScuteLayer, ANN_CREATED, ANN_REF_NAME, ANN_SCUTE_SALT,
    MEDIA_TYPE_OCI_MANIFEST, MEDIA_TYPE_PICHI_ARTIFACT, MEDIA_TYPE_PICHI_SCUTE, SCUTE_CHUNK_SIZE_SECTORS,
};
use sha2::{Digest, Sha256};
use std::collections::BTreeMap;

fn two_scutes() -> Vec<ScuteLayer> {
    vec![
        ScuteLayer { cow: b"base".to_vec(), salt: vec![0u8; 32] },
        ScuteLayer { cow: b"top".to_vec(), salt: vec![0, 1, 0xab, 0xff] },
    ]
}

#[test]
fn writes_a_valid_oci_layout() {
    let scutes = vec![ScuteLayer { cow: b"fake-cow-bytes".to_vec(), salt: vec![0u8; 32] }];
    let layout = write_layout("43", &scutes, Some("2026-06-22T00:00:00Z"));
    let digest = layout.manifest.digest.clone();

    assert_eq!(String::from_utf8(layout.marker).unwrap(), r#"{"imageLayoutVersion":"1.0.0"}"#);
    let mhex = digest.strip_prefix("sha256:").unwrap();
    assert_eq!(layout.manifest.hex, mhex);
    let manifest_bytes = layout.manifest_bytes;
    assert_eq!(format!("sha256:{}", hex::encode(Sha256::digest(&manifest_bytes))), digest);

    let index: serde_json::Value = serde_json::from_slice(&layout.index).unwrap();
    let desc = &index["manifests"][0];
    assert_eq!(desc["mediaType"], MEDIA_TYPE_OCI_MANIFEST);
    assert_eq!(desc["size"].as_u64().unwrap(), manifest_bytes.len() as u64);
    assert_eq!(desc["digest"], digest);
    assert_eq!(desc["annotations"][ANN_REF_NAME], "43");

    let manifest: serde_json::Value = serde_json::from_slice(&manifest_bytes).unwrap();
    assert_eq!(manifest["artifactType"], MEDIA_TYPE_PICHI_ARTIFACT);
    assert_eq!(manifest["layers"][0]["mediaType"], MEDIA_TYPE_PICHI_SCUTE);
    assert_eq!(manifest["layers"][0]["annotations"][ANN_SCUTE_SALT], "00".repeat(32));
    assert_eq!(manifest["annotations"][ANN_CREATED], "2026-06-22T00:00:00Z");
}

#[test]
fn the_manifest_is_exact() {
    let layout = write_layout("v1", &two_scutes(), None);
    let expected = concat_lines(&[
        r#"{"annotations":{"dev.pichi.carapace.verity.algo":"sha256","#,
        r#""dev.pichi.carapace.verity.data-block-size":"4096","#,
        r#""dev.pichi.carapace.verity.hash-block-size":"4096"},"#,
        r#""artifactType":"application/vnd.pichi.artifact.v1+json","#,
        r#""config":{"data":"e30=","#,
        r#""digest":"sha256:44136fa355b3678a1146ad16f7e8649e94fb4fc21fe77e8310c060f61caaff8a","#,
        r#""mediaType":"application/vnd.oci.empty.v1+json","size":2},"#,
        r#""layers":[{"annotations":{"dev.pichi.scute.verity.salt":"#,
        r#""0000000000000000000000000000000000000000000000000000000000000000"},"#,
        r#""digest":"sha256:cae662172fd450bb0cd710a769079c05bfc5d8e35efa6576edc7d0377afdd4a2","#,
        r#""mediaType":"application/vnd.pichi.scute.v1","size":4},"#,
        r#"{"annotations":{"dev.pichi.scute.verity.salt":"0001abff"},"#,
        r#""digest":"sha256:28720365c5e7476a011e4f43ac003ee5f16247a263b9d623aa85ed311d73bf39","#,
        r#""mediaType":"application/vnd.pichi.scute.v1","size":3}],"#,
        r#""mediaType":"application/vnd.oci.image.manifest.v1+json","schemaVersion":2}"#,
    ]);
    assert_eq!(String::from_utf8(layout.manifest_bytes).unwrap(), expected);
    assert_eq!(
        layout.manifest.digest,
        "sha256:21e06f2a21f67f0c2888a57cafb76d39076130f353aaf5c0890b69d8f070b4c8"
    );
}

fn concat_lines(lines: &[&str]) -> String {
    lines.concat()
}

#[test]
fn the_index_is_exact() {
    let layout = write_layout("v1", &two_scutes(), None);
    let expected = concat_lines(&[
        r#"{"manifests":[{"annotations":{"org.opencontainers.image.ref.name":"v1"},"#,
        r#""artifactType":"application/vnd.pichi.artifact.v1+json","#,
        r#""digest":"sha256:21e06f2a21f67f0c2888a57cafb76d39076130f353aaf5c0890b69d8f070b4c8","#,
        r#""mediaType":"application/vnd.oci.image.manifest.v1+json","size":916}],"#,
        r#""mediaType":"application/vnd.oci.image.index.v1+json","schemaVersion":2}"#,
    ]);
    assert_eq!(String::from_utf8(layout.index).unwrap(), expected);
}

#[test]
fn a_tag_is_escaped() {
    let layout = write_layout("a\"b\\c\n\u{1}\u{1f}\t\r\u{8}\u{c}é\u{7f}", &[], None);
    let text = String::from_utf8(layout.index).unwrap();
    let escaped = "\"a\\\"b\\\\c\\n\\u0001\\u001f\\t\\r\\b\\fé\u{7f}\"";
    assert!(text.contains(escaped), "{}", text);
}

#[test]
fn every_referenced_blob_is_there() {
    let layout = write_layout("v1", &two_scutes(), None);
    let manifest: serde_json::Value = serde_json::from_slice(&layout.manifest_bytes).unwrap();
    assert_eq!(manifest["config"]["digest"], layout.config.digest);
    assert_eq!(layout.config_bytes, b"{}".to_vec());
    assert_eq!(manifest["layers"].as_array().unwrap().len(), 2);
    for (i, name) in layout.cows.iter().enumerate() {
        assert_eq!(manifest["layers"][i]["digest"], name.digest);
        assert_eq!(format!("sha256:{}", name.hex), name.digest);
    }
}

#[test]
fn the_artifact_does_not_depend_on_its_tag() {
    let a = write_layout("a", &two_scutes(), None);
    let b = write_layout("b", &two_scutes(), None);
    assert_eq!(a.manifest, b.manifest);
    assert_eq!(a.manifest_bytes, b.manifest_bytes);
    assert_eq!(a.cows, b.cows);
    assert_ne!(a.index, b.index);
    assert_eq!(a.index, write_layout("a", &two_scutes(), None).index);
}

#[test]
fn a_timestamp_changes_the_digest() {
    let plain = write_layout("a", &two_scutes(), None);
    let dated = write_layout("a", &two_scutes(), Some("2026-06-22T00:00:00Z"));
    assert_ne!(plain.manifest.digest, dated.manifest.digest);
    assert!(!String::from_utf8(plain.manifest_bytes).unwrap().contains(ANN_CREATED));
}

#[test]
fn equal_cows_share_a_blob() {
    let scutes = vec![
        ScuteLayer { cow: b"same".to_vec(), salt: vec![1] },
        ScuteLayer { cow: b"same".to_vec(), salt: vec![2] },
        ScuteLayer { cow: b"other".to_vec(), salt: vec![1] },
    ];
    let layout = write_layout("x", &scutes, None);
    assert_eq!(layout.cows[0], layout.cows[1]);
    assert_ne!(layout.cows[0], layout.cows[2]);
}

#[test]
fn a_layout_without_scutes_has_no_layers() {
    let layout = write_layout("x", &[], None);
    let manifest: serde_json::Value = serde_json::from_slice(&layout.manifest_bytes).unwrap();
    assert_eq!(manifest["layers"].as_array().unwrap().len(), 0);
    assert!(layout.cows.is_empty());
}

#[test]
fn blobs_are_named_by_their_digest() {
    let name = put_blob(b"abc");
    let hex = "ba7816bf8f01cfea414140de5dae2223b00361a396177a9cb410ff61f20015ad";
    assert_eq!(name.hex, hex);
    assert_eq!(name.hex.len(), 64);
    assert!(name.hex.chars().all(|c| c.is_ascii_digit() || ('a'..='f').contains(&c)));
    assert_eq!(name.path(), format!("blobs/sha256/{hex}"));
    assert_eq!(name.tmp_file(), format!("blobs/sha256/.{hex}.tmp"));
    assert_eq!(name.tmp, format!(".{hex}.tmp"));
    assert_eq!(name.digest, format!("sha256:{hex}"));
    assert_eq!(put_blob(b"").hex, "e3b0c44298fc1c149afbf4c8996fb92427ae41e4649b934ca495991b7852b855");
}

#[test]
fn canonical_json_sorts_its_keys() {
    let mut fields = serde_json::Map::new();
    fields.insert("b".to_string(), serde_json::Value::from(2));
    fields.insert("a".to_string(), serde_json::Value::from("x"));
    fields.insert("aa".to_string(), serde_json::Value::from(vec![1, 2]));
    let bytes = to_canonical_json(&serde_json::Value::Object(fields));
    assert_eq!(bytes, br#"{"a":"x","aa":[1,2],"b":2}"#.to_vec());
}

#[test]
fn import_lays_out_one_base_scute() {
    let emit = |raw: &[u8], chunk: u32| -> Result<Vec<u8>, String> {
        let mut cow = raw.to_vec();
        cow.push(chunk as u8);
        Ok(cow)
    };
    let (scute, layout) = import_raw(b"image", "43", None, emit).unwrap();
    assert_eq!(scute.cow, b"image\x08".to_vec());
    assert_eq!(scute.salt, vec![0u8; 32]);
    assert_eq!(SCUTE_CHUNK_SIZE_SECTORS, 8);
    assert_eq!(layout, write_layout("43", &[scute], None));
}

#[test]
fn import_passes_a_failure_on() {
    let emit = |_: &[u8], _: u32| -> Result<Vec<u8>, String> { Err("too large".to_string()) };
    assert_eq!(import_raw(b"image", "43", None, emit).unwrap_err(), "too large");
}

type Directory = BTreeMap<String, Vec<u8>>;

/// Plays the file system.
fn write_into(directory: &mut Directory, scutes: &[ScuteLayer], layout: &Layout) {
    for k in 0..layout.blob_count() {
        let (name, bytes) = layout.blob(scutes, k);
        for step in put_steps(directory.contains_key(&name.path())) {
            match step {
                FileStep::WriteAside => {
                    directory.insert(name.tmp_file(), bytes.to_vec());
                }
                FileStep::RenameInto => {
                    let content = directory.remove(&name.tmp_file()).unwrap();
                    directory.insert(name.path(), content);
                }
            }
        }
    }
    for file in layout.top_files() {
        directory.insert(file.path.to_string(), file.bytes.to_vec());
    }
}

#[test]
fn a_blob_that_is_there_is_left_alone() {
    assert_eq!(put_steps(true), vec![]);
    assert_eq!(put_steps(false), vec![FileStep::WriteAside, FileStep::RenameInto]);
}

#[test]
fn a_layout_is_six_files_for_two_scutes() {
    let layout = write_layout("v1", &two_scutes(), None);
    let mut directory = Directory::new();
    write_into(&mut directory, &two_scutes(), &layout);
    assert_eq!(directory.len(), 6);
    for k in 0..layout.blob_count() {
        let scutes = two_scutes();
        let (name, bytes) = layout.blob(&scutes, k);
        assert_eq!(directory[&name.path()], bytes);
    }
    assert_eq!(directory[&layout.manifest.path()], layout.manifest_bytes);
    assert_eq!(directory[&layout.cows[1].path()], b"top".to_vec());
    assert_eq!(directory["index.json"], layout.index);
    assert_eq!(directory["oci-layout"], layout.marker);
    assert!(directory.keys().all(|path| !path.ends_with(".tmp")));
}

#[test]
fn a_second_run_changes_nothing() {
    let layout = write_layout("v1", &two_scutes(), None);
    let mut directory = Directory::new();
    write_into(&mut directory, &two_scutes(), &layout);
    let before = directory.clone();
    write_into(&mut directory, &two_scutes(), &write_layout("v1", &two_scutes(), None));
    assert_eq!(directory, before);
}

#[test]
fn another_layout_keeps_the_blobs_and_replaces_the_index() {
    let first = write_layout("v1", &two_scutes(), None);
    let mut directory = Directory::new();
    write_into(&mut directory, &two_scutes(), &first);
    let before = directory.clone();
    let scutes = vec![ScuteLayer { cow: b"base".to_vec(), salt: vec![9] }];
    let second = write_layout("v1", &scutes, None);
    write_into(&mut directory, &scutes, &second);
    for (path, bytes) in &before {
        if path.starts_with("blobs/") {
            assert_eq!(&directory[path], bytes);
        }
    }
    assert_eq!(directory["index.json"], second.index);
    let index: serde_json::Value = serde_json::from_slice(&directory["index.json"]).unwrap();
    assert_eq!(index["manifests"].as_array().unwrap().len(), 1);
    assert_eq!(index["manifests"][0]["digest"], second.manifest.digest);
    assert_eq!(directory.len(), before.len() + 1);
}
