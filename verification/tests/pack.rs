//! Packs: the levels, the nibbles, importing and slicing.

use mummu::gguf::{GgmlType, GgufTensorInfo};
use mummu::nn::packed_gemv::decode_word;
use mummu::pack::import::{Importer, Levels};
use mummu::pack::read::{
    check_cols, check_rank, check_rows, le_words, level_blob, read_f32, read_floats, read_quant,
    rewrite_entry, slice_cols, slice_rows, tensor_cols, tensor_rows,
};
use mummu::pack::store::{half_bytes, le_bytes, le_halves, quantized_values};
use mummu::pack::{
    pack_nibbles, quantized_tensor_data, unpack_nibbles, Blob, ImportAction, Manifest, Precision,
    Role, TensorEntry, PACK_VERSION,
};
use mummu::routing::transpose;

#[test]
fn nibble_packing_roundtrips() {
    let vals: Vec<i8> = (-7..=7).chain([0, 7, -7, 3]).collect();
    let packed = pack_nibbles(&vals);
    assert_eq!(packed.len(), vals.len().div_ceil(2));
    assert_eq!(unpack_nibbles(&packed, vals.len()), vals);
}

#[test]
fn precision_list_parses_and_dedups() {
    assert_eq!(
        Precision::parse_list("f32,q4,q8,q4").unwrap(),
        vec![Precision::Q4, Precision::Q8, Precision::F32]
    );
    assert!(Precision::parse_list("q3").is_err());
}

#[test]
fn every_level_has_its_blob() {
    assert_eq!(Precision::Q4.blob_name(), "q4.bin");
    assert_eq!(Precision::Q8.blob_name(), "q8.bin");
    assert_eq!(Precision::F16.blob_name(), "f16.bin");
    assert_eq!(Precision::F32.blob_name(), "f32.bin");
    assert_eq!(
        Precision::parse_list(" Q8 , F16").expect("trimmed, any case"),
        vec![Precision::Q8, Precision::F16]
    );
}

#[test]
fn packed_words_decode_to_their_values() {
    for bits in [4u32, 8] {
        let values: Vec<i8> = if bits == 4 {
            (-8..8).chain(-8..8).collect()
        } else {
            vec![-128, -1, 0, 1, 127, 64, -64, 5]
        };
        let scales = vec![1.0f32.to_bits()];
        let words = quantized_tensor_data(&values, &scales, bits);
        let n = values.len() * bits as usize / 32;
        assert_eq!(words.len(), n + 1);
        assert_eq!(words[n], 1.0f32.to_bits(), "the scales follow the values");
        let back: Vec<i8> = words[..n].iter().flat_map(|w| decode_word(*w, bits)).collect();
        assert_eq!(back, values);
    }
}

// ---- importing -------------------------------------------------------------

fn info(name: &str, dims: Vec<u64>) -> GgufTensorInfo {
    GgufTensorInfo {
        name: name.to_string(),
        dims,
        dtype: GgmlType::F32,
        offset: 0,
    }
}

#[test]
fn an_import_always_has_a_float_level() {
    let l = Levels::new(&vec![Precision::Q4, Precision::Q8, Precision::Q4]);
    assert_eq!(l.precisions, vec![Precision::Q4, Precision::Q8]);
    assert_eq!(l.float_levels, vec![Precision::F32]);
    assert_eq!(l.all_levels, vec![Precision::Q4, Precision::Q8, Precision::F32]);
    assert!(l.holds(true, Precision::Q4) && !l.holds(false, Precision::Q4));
    let h = Levels::new(&vec![Precision::F16]);
    assert_eq!(h.float_levels, vec![Precision::F16]);
    assert_eq!(h.all_levels, vec![Precision::F16]);
}

#[test]
fn an_import_lays_tensors_out_one_behind_the_other() {
    let mut im = Importer::new(&vec![Precision::Q8, Precision::F32]);
    let none = im.add_tensor(&info("skipped", vec![4]), &Some(ImportAction::Skip));
    assert_eq!(none.expect("skipped").len(), 0);

    // Two rows of 32 values, stored transposed: not quantizable.
    let a = im
        .add_tensor(&info("a", vec![32, 2]), &Some(ImportAction::Linear))
        .expect("linear");
    assert_eq!(a[0].transpose, Some((2, 32)));
    assert_eq!(a[0].writes.len(), 1, "32 rows of 2 values are no whole blocks");

    // 32 rows of 64 inputs: [64, 32], whole blocks.
    let b = im
        .add_tensor(&info("b", vec![64, 32]), &Some(ImportAction::Linear))
        .expect("linear");
    let q8 = b[0].writes[0];
    assert_eq!(q8.precision, Precision::Q8);
    assert_eq!((q8.blob.values_offset, q8.blob.values_len), (0, 2048));
    assert_eq!((q8.blob.scales_offset, q8.blob.scales_len), (2048, 256));
    let f = b[0].writes[1];
    assert_eq!(f.precision, Precision::F32);
    assert_eq!((f.blob.values_offset, f.blob.values_len), (256, 8192));

    let bank = im
        .add_tensor(
            &info("bank", vec![32, 64, 3]),
            &Some(ImportAction::ExpertBank {
                layer: 5,
                proj: "up".to_string(),
            }),
        )
        .expect("bank");
    assert_eq!(bank.len(), 3);
    for (e, item) in bank.iter().enumerate() {
        assert_eq!((item.source, item.count), (e * 2048, 2048));
        assert_eq!(item.transpose, Some((64, 32)));
        let t = &im.tensors[item.entry];
        assert_eq!(t.name, format!("bank/e{e}"));
        assert_eq!(t.shape, vec![32, 64]);
    }
    let m = im.finish("x.gguf".to_string(), 9, "arch".to_string());
    assert_eq!(m.version, PACK_VERSION);
    assert_eq!(m.tensors.len(), 5);
    assert!(m.ffn_partition.is_none());
    assert!(m.entry("bank/e2").is_some() && m.entry("bank/e3").is_none());
    assert_eq!(m.check_version(), Ok(()));
    assert!(Manifest { version: 2, ..m }.check_version().is_err());
}

#[test]
fn an_import_refuses_what_it_cannot_place() {
    let mut im = Importer::new(&vec![Precision::F32]);
    assert_eq!(
        im.add_tensor(&info("x", vec![4]), &None).expect_err("unmapped"),
        "unmapped tensor name 'x'"
    );
    assert_eq!(
        im.add_tensor(&info("x", vec![4]), &Some(ImportAction::Linear))
            .expect_err("rank"),
        "'x' linear must be 2-D, got [4]"
    );
    assert_eq!(
        im.add_tensor(&info("x", vec![4, 2, 1]), &Some(ImportAction::Conv))
            .expect_err("rank"),
        "'x' conv must be 2-D squeezed, got [1, 2, 4]"
    );
    let bank = ImportAction::ExpertBank {
        layer: 0,
        proj: "up".to_string(),
    };
    assert_eq!(
        im.add_tensor(&info("x", vec![4, 2]), &Some(bank)).expect_err("rank"),
        "'x' expert bank must be 3-D, got [2, 4]"
    );
}

#[test]
fn a_single_level_is_added_only_where_nothing_else_can_be_stored() {
    let mut im = Importer::new(&vec![Precision::Q8]);
    let mut levels = |name: &str, dims: Vec<u64>, action: ImportAction| -> Vec<Precision> {
        let items = im.add_tensor(&info(name, dims), &Some(action)).expect("laid out");
        items[0].writes.iter().map(|w| w.precision).collect()
    };
    assert_eq!(levels("w", vec![64, 32], ImportAction::Linear), vec![Precision::Q8]);
    assert_eq!(levels("odd", vec![32, 2], ImportAction::Linear), vec![Precision::F32]);
    assert_eq!(levels("e", vec![64, 32], ImportAction::Embedding), vec![Precision::F32]);
    assert_eq!(levels("v", vec![64], ImportAction::Vector), vec![Precision::F32]);
    assert_eq!(levels("c", vec![4, 8], ImportAction::Conv), vec![Precision::F32]);
}

// ---- reading and slicing ---------------------------------------------------

/// Quantize rows in blocks of 32 to 8 bits.
fn quantize(vals: &[f32]) -> (Vec<i8>, Vec<u32>) {
    let mut q = Vec::new();
    let mut scales = Vec::new();
    for b in vals.chunks(32) {
        let amax = b.iter().fold(0f32, |a, v| a.max(v.abs()));
        let s = if amax == 0.0 { 1.0 } else { amax / 127.0 };
        scales.push(s.to_bits());
        q.extend(b.iter().map(|v| (v / s).round() as i8));
    }
    (q, scales)
}

/// A written entry of both levels, with its bytes.
fn entry(name: &str, vals: &[f32], shape: Vec<usize>, f32b: &mut Vec<u8>, q8b: &mut Vec<u8>) -> TensorEntry {
    let fo = f32b.len() as u64;
    f32b.extend(vals.iter().flat_map(|v| v.to_le_bytes()));
    let (q, sc) = quantize(vals);
    let qo = q8b.len() as u64;
    q8b.extend(q.iter().map(|v| *v as u8));
    let so = q8b.len() as u64;
    q8b.extend(sc.iter().flat_map(|s| s.to_le_bytes()));
    TensorEntry {
        name: name.to_string(),
        role: Role::Linear,
        shape,
        precisions: vec![
            (
                Precision::Q8,
                Blob {
                    values_offset: qo,
                    values_len: vals.len() as u64,
                    scales_offset: so,
                    scales_len: sc.len() as u64 * 4,
                },
            ),
            (
                Precision::F32,
                Blob {
                    values_offset: fo,
                    values_len: vals.len() as u64 * 4,
                    scales_offset: 0,
                    scales_len: 0,
                },
            ),
        ],
    }
}

fn cut(bytes: &[u8], offset: u64, len: u64) -> Vec<u8> {
    bytes[offset as usize..(offset + len) as usize].to_vec()
}

#[test]
fn column_and_row_slices_round_trip_through_a_written_pack() {
    let (rows, cols) = (64usize, 128usize);
    let gate: Vec<f32> = (0..rows * cols).map(|i| ((i as f32) * 0.017).sin()).collect();
    let down: Vec<f32> = (0..cols * rows).map(|i| ((i as f32) * 0.023).cos()).collect();
    let (mut f32b, mut q8b) = (Vec::new(), Vec::new());
    let ge = entry("gate", &gate, vec![rows, cols], &mut f32b, &mut q8b);
    let de = entry("down", &down, vec![cols, rows], &mut f32b, &mut q8b);
    let ranges = vec![(32usize, 32usize), (96, 32)];

    // Columns [32, 64) and [96, 128) of the first, in single precision.
    let src = read_f32(&ge).expect("single precision");
    assert_eq!(src.level, Precision::F32);
    let words = mummu::pack::read::le_words(&cut(&f32b, src.blob.values_offset, src.blob.values_len));
    assert_eq!(check_cols(&ge, Precision::F32, &ranges), Ok((rows, cols, 64)));
    let got = slice_cols(&words, rows, cols, &ranges);
    assert_eq!(got.len(), rows * 64);
    for r in 0..rows {
        for (k, &(start, len)) in ranges.iter().enumerate() {
            let base: usize = ranges[..k].iter().map(|x| x.1).sum();
            for j in 0..len {
                assert_eq!(f32::from_bits(got[r * 64 + base + j]), gate[r * cols + start + j]);
            }
        }
    }
    // The same ranges as rows of the second.
    let src = read_f32(&de).expect("single precision");
    let words = mummu::pack::read::le_words(&cut(&f32b, src.blob.values_offset, src.blob.values_len));
    assert_eq!(check_rows(&de, &ranges), Ok((rows, 64)));
    let gotr = slice_rows(&words, cols, rows, &ranges);
    for (k, &(start, len)) in ranges.iter().enumerate() {
        let base: usize = ranges[..k].iter().map(|x| x.1).sum();
        for j in 0..len {
            for c in 0..rows {
                assert_eq!(f32::from_bits(gotr[(base + j) * rows + c]), down[(start + j) * rows + c]);
            }
        }
    }
    // Quantized slices keep their scales: within half a step of the source.
    let blob = level_blob(&ge, Precision::Q8).expect("8 bits");
    let (q, s) = read_quant(
        &ge,
        Precision::Q8,
        &cut(&q8b, blob.values_offset, blob.values_len),
        &cut(&q8b, blob.scales_offset, blob.scales_len),
    )
    .expect("read");
    assert_eq!(check_cols(&ge, Precision::Q8, &ranges), Ok((rows, cols, 64)));
    let (qc, sc) = tensor_cols(&q, &s, rows, cols, &ranges);
    for r in 0..rows {
        for x in 0..64 {
            let scale = f32::from_bits(sc[(r * 64 + x) / 32]);
            let back = f32::from(qc[r * 64 + x]) * scale;
            let col = if x < 32 { 32 + x } else { 96 + x - 32 };
            assert!((back - gate[r * cols + col]).abs() <= scale / 2.0 + 1e-6);
        }
    }
    let blob = level_blob(&de, Precision::Q8).expect("8 bits");
    let (q, s) = read_quant(
        &de,
        Precision::Q8,
        &cut(&q8b, blob.values_offset, blob.values_len),
        &cut(&q8b, blob.scales_offset, blob.scales_len),
    )
    .expect("read");
    let (qr, sr) = tensor_rows(&q, &s, cols, rows, &ranges);
    assert_eq!((qr.len(), sr.len()), (64 * rows, 64 * rows / 32));
    assert_eq!(&qr[..32 * rows], &q[32 * rows..64 * rows]);

    // Ranges off the blocks are refused.
    assert!(check_cols(&ge, Precision::Q8, &vec![(16, 32)]).is_err());
    assert!(check_rank(&ge, 3).is_err());
    assert!(level_blob(&ge, Precision::Q4).is_err());
    assert!(read_floats(&ge, Precision::F16).is_ok(), "another float level serves");
}

#[test]
fn a_rewrite_covers_every_stored_level() {
    let (mut f32b, mut q8b) = (Vec::new(), Vec::new());
    let vals = vec![0.5f32; 64];
    let e = entry("x", &vals, vec![2, 32], &mut f32b, &mut q8b);
    let plan = rewrite_entry(&e, 64);
    assert!(plan.failure.is_none());
    assert_eq!(plan.writes.len(), 2);
    let bad = rewrite_entry(&e, 63);
    assert!(bad.failure.is_some());
}

#[test]
fn transposing_twice_gives_the_matrix_back() {
    let m: Vec<u32> = (0..6).collect();
    let t = transpose(&m, 2, 3);
    assert_eq!(t, vec![0, 3, 1, 4, 2, 5]);
    assert_eq!(transpose(&t, 3, 2), m);
}

#[test]
fn stored_bytes_read_back() {
    let words = vec![0, 1, 0x1234_5678, u32::MAX];
    let bytes = le_bytes(&words);
    assert_eq!(&bytes[8..12], [0x78, 0x56, 0x34, 0x12]);
    assert_eq!(le_words(&bytes), words);

    let halves = vec![0u16, 0x3c00, 0xabcd];
    let bytes = half_bytes(&halves);
    assert_eq!(bytes, [0, 0, 0x00, 0x3c, 0xcd, 0xab]);
    assert_eq!(le_halves(&bytes), halves);
    assert_eq!(le_halves(&vec![1, 2, 3]), vec![0x0201], "an odd byte is dropped");

    let wide: Vec<i8> = vec![-127, -1, 0, 1, 127];
    assert_eq!(quantized_values(Precision::Q8, &wide), [129, 255, 0, 1, 127]);
    let narrow: Vec<i8> = vec![-7, 7, -1];
    let bytes = quantized_values(Precision::Q4, &narrow);
    assert_eq!(bytes, [0x79, 0x0f]);
    assert_eq!(unpack_nibbles(&bytes, 3), narrow);
}

/// A quantized tensor written behind another reads back through its blob.
#[test]
fn a_second_tensor_reads_back_through_its_blob() {
    let mut importer = Importer::new(&vec![Precision::Q8]);
    let mut file: Vec<u8> = Vec::new();
    let mut wrote = Vec::new();
    for (t, name) in ["a", "b"].into_iter().enumerate() {
        let info = GgufTensorInfo {
            name: name.to_string(),
            dims: vec![2, 32],
            dtype: GgmlType::F32,
            offset: 0,
        };
        let items = importer
            .add_tensor(&info, &Some(ImportAction::Linear))
            .expect("a linear");
        let write = &items[0].writes[0];
        assert_eq!(write.precision, Precision::Q8);
        let values: Vec<i8> = (0..64).map(|i| i - 32 - t as i8).collect();
        let scales: Vec<u32> = vec![7 + t as u32, 9];
        assert_eq!(write.blob.values_offset as usize, file.len());
        file.extend(quantized_values(Precision::Q8, &values));
        file.extend(le_bytes(&scales));
        wrote.push((items[0].entry, values, scales));
    }
    for (entry, values, scales) in wrote {
        let e = &importer.tensors[entry];
        let b = level_blob(e, Precision::Q8).expect("stored");
        let run = |at: u64, len: u64| file[at as usize..(at + len) as usize].to_vec();
        let read = read_quant(
            e,
            Precision::Q8,
            &run(b.values_offset, b.values_len),
            &run(b.scales_offset, b.scales_len),
        );
        assert_eq!(read, Ok((values, scales)));
    }
}
