use arrow_array::{Array, StringViewArray};
use arrow_buffer::{Buffer, ScalarBuffer};
use tensor_grep_rs::mmap_arrow::{
    create_arrow_string_array_from_mmap, read_mmap_to_arrow_chunked, ColumnarTextArray,
    ExportError, MAX_REGION,
};

fn values<'a>(array: &ColumnarTextArray<'a>) -> Vec<&'a [u8]> {
    (0..array.len()).map(|i| array.value(i)).collect()
}

fn export(bytes: &[u8]) -> ColumnarTextArray<'_> {
    create_arrow_string_array_from_mmap(bytes).unwrap()
}

#[test]
fn empty_file_exports_no_values() {
    let array = export(b"");
    assert_eq!(array.len(), 0);
    assert!(array.is_empty());
    assert_eq!(array.offsets(), &[0]);
    assert!(array.chunks(16).is_empty());
}

#[test]
fn offsets_follow_each_newline_and_close_at_the_end() {
    let terminated = export(b"a\nbc\n");
    assert_eq!(terminated.offsets(), &[0, 2, 5]);
    assert_eq!(values(&terminated), vec![&b"a"[..], &b"bc"[..]]);

    let unterminated = export(b"a\n\nb");
    assert_eq!(unterminated.offsets(), &[0, 2, 3, 4]);
    assert_eq!(values(&unterminated), vec![&b"a"[..], &b""[..], &b"b"[..]]);
    assert_eq!(unterminated.value_length(0), 1);
    assert_eq!(unterminated.value_length(1), 0);

    let only_newlines = export(b"\n\n");
    assert_eq!(only_newlines.offsets(), &[0, 1, 2]);
    assert_eq!(values(&only_newlines), vec![&b""[..], &b""[..]]);

    let single = export(b"no newline");
    assert_eq!(single.offsets(), &[0, 10]);
    assert_eq!(values(&single), vec![&b"no newline"[..]]);
}

#[test]
fn values_reconstruct_the_file_without_delimiters() {
    let files: [&[u8]; 6] = [
        b"",
        b"\n",
        b"one\ntwo\nthree",
        b"one\ntwo\nthree\n",
        b"\n\nx\n\n",
        b"bad \xff\xfe bytes\nstay\n",
    ];
    for bytes in files {
        let array = export(bytes);
        let joined: Vec<u8> = values(&array).concat();
        let expected: Vec<u8> = bytes.iter().copied().filter(|b| *b != b'\n').collect();
        assert_eq!(joined, expected);
        let offsets = array.offsets();
        assert_eq!(offsets[0], 0);
        assert_eq!(offsets[offsets.len() - 1] as usize, bytes.len());
        assert!(offsets.windows(2).all(|w| w[0] <= w[1]));
        assert_eq!(array.data(), bytes);
    }
}

#[test]
fn invalid_utf8_passes_through_unchecked() {
    let array = export(b"\xff\xfe\n\xc3");
    assert_eq!(values(&array), vec![&b"\xff\xfe"[..], &b"\xc3"[..]]);
    assert!(std::str::from_utf8(array.value(0)).is_err());
}

#[test]
fn values_point_into_the_mapped_bytes() {
    let bytes = b"first\nsecond\n".to_vec();
    let array = export(&bytes);
    let second = array.value(1);
    assert_eq!(second.as_ptr(), bytes[6..].as_ptr());
    let part = array.slice(1, 1);
    assert_eq!(part.value(0).as_ptr(), bytes[6..].as_ptr());
    assert_eq!(part.offsets(), &[6, 13]);
}

#[test]
fn region_beyond_the_offset_width_is_refused() {
    let huge = vec![0u8; MAX_REGION + 1];
    assert_eq!(
        create_arrow_string_array_from_mmap(&huge).err(),
        Some(ExportError::TooLarge)
    );
    assert_eq!(
        read_mmap_to_arrow_chunked(&huge, 1024).err(),
        Some(ExportError::TooLarge)
    );
}

#[test]
fn slice_adjusts_offsets_only() {
    let array = export(b"a\nbb\nccc\ndddd");
    let middle = array.slice(1, 2);
    assert_eq!(middle.len(), 2);
    assert_eq!(values(&middle), vec![&b"bb"[..], &b"ccc"[..]]);
    assert_eq!(middle.offsets(), &[2, 5, 9]);
    let none = array.slice(4, 0);
    assert!(none.is_empty());
    let all = array.slice(0, 4);
    assert_eq!(values(&all), values(&array));
}

#[test]
fn chunk_len_takes_what_fits_and_at_least_one() {
    let array = export(b"aa\nbb\ncccccc\nd\ne\n");
    assert_eq!(array.chunk_len(0, 4), 2);
    assert_eq!(array.chunk_len(0, 3), 1);
    assert_eq!(array.chunk_len(2, 4), 1);
    assert_eq!(array.chunk_len(2, 7), 2);
    assert_eq!(array.chunk_len(3, 4), 2);
    assert_eq!(array.chunk_len(4, 0), 1);
    assert_eq!(array.chunk_len(0, 100), 5);
}

#[test]
fn chunks_partition_the_values_in_order() {
    let bytes = b"aa\nbb\ncccccc\nd\ne\n";
    let array = export(bytes);
    let parts = array.chunks(4);
    let shape: Vec<Vec<&[u8]>> = parts.iter().map(values).collect();
    assert_eq!(
        shape,
        vec![
            vec![&b"aa"[..], &b"bb"[..]],
            vec![&b"cccccc"[..]],
            vec![&b"d"[..], &b"e"[..]],
        ]
    );
    let same = read_mmap_to_arrow_chunked(bytes, 4).unwrap();
    let same_shape: Vec<Vec<&[u8]>> = same.iter().map(values).collect();
    assert_eq!(same_shape, shape);
}

#[test]
fn chunking_covers_the_array_under_every_budget() {
    let files: [&[u8]; 4] = [
        b"aa\nbb\ncccccc\nd\ne\n",
        b"\n\n\nlong line here\n\nx",
        b"one line",
        b"",
    ];
    for bytes in files {
        let array = export(bytes);
        for budget in 0..20usize {
            let parts = array.chunks(budget);
            let mut rebuilt: Vec<&[u8]> = Vec::new();
            for (k, part) in parts.iter().enumerate() {
                let held = values(part);
                assert!(!held.is_empty());
                let size: usize = held.iter().map(|v| v.len()).sum();
                assert!(size <= budget || held.len() == 1);
                if k + 1 < parts.len() {
                    assert!(size + parts[k + 1].value(0).len() > budget);
                }
                rebuilt.extend(held);
            }
            assert_eq!(rebuilt, values(&array));
        }
    }
}

#[test]
fn arrow_views_describe_the_values() {
    let bytes = b"short\na considerably longer line\n\nlast";
    let array = export(bytes);
    let views = array.to_arrow_views();
    assert_eq!(views.len(), 4);
    let arrow = StringViewArray::try_new(
        ScalarBuffer::from(views),
        vec![Buffer::from_vec(bytes.to_vec())],
        None,
    )
    .unwrap();
    assert_eq!(arrow.len(), 4);
    let held: Vec<&str> = (0..arrow.len()).map(|i| arrow.value(i)).collect();
    assert_eq!(held, vec!["short", "a considerably longer line", "", "last"]);

    let tail = array.slice(1, 2).to_arrow_views();
    let part = StringViewArray::try_new(
        ScalarBuffer::from(tail),
        vec![Buffer::from_vec(bytes.to_vec())],
        None,
    )
    .unwrap();
    let held: Vec<&str> = (0..part.len()).map(|i| part.value(i)).collect();
    assert_eq!(held, vec!["a considerably longer line", ""]);

    assert!(export(b"").to_arrow_views().is_empty());
}

#[test]
fn size_limit_failure_has_a_message() {
    assert_eq!(
        ExportError::TooLarge.message(),
        "File is too large for standard StringArray (exceeds 2GB). Use LargeStringArray."
    );
}
