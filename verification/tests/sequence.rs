use lv2::{
    lv2_atom_pad_size, lv2_atom_sequence_begin, lv2_atom_sequence_is_end, lv2_atom_sequence_next,
    lv2_midi_message_type, ByteOrder, LV2_Atom, LV2_Atom_Event, LV2_Atom_Event_Cursor,
    LV2_Atom_Sequence_Body, LV2_Midi_Message_Type,
};

fn body_with_events(order: ByteOrder, events: &[(i64, u32, Vec<u8>)]) -> Vec<u8> {
    let mut body: Vec<u8> = Vec::new();
    LV2_Atom_Sequence_Body { unit: 0, pad: 0 }.encode(&mut body, order);
    for (time, mytype, contents) in events {
        let size = contents.len() as u32;
        LV2_Atom_Event { time_in_frames: *time, body: LV2_Atom { size, mytype: *mytype } }
            .encode(&mut body, order);
        body.extend_from_slice(contents);
        for _ in size..lv2_atom_pad_size(size) {
            body.push(0);
        }
    }
    body
}

fn offsets_of_walk(body: &[u8], order: ByteOrder, size: u32) -> Vec<usize> {
    let mut offsets: Vec<usize> = Vec::new();
    let mut cursor = lv2_atom_sequence_begin(body, order);
    while !lv2_atom_sequence_is_end(size, cursor) {
        offsets.push(cursor.offset);
        cursor = lv2_atom_sequence_next(cursor).unwrap();
    }
    offsets
}

#[test]
fn begin_stands_behind_the_body_header() {
    let body = [0u8; 40];
    let cursor = lv2_atom_sequence_begin(&body, ByteOrder::BigEndian);
    assert_eq!(cursor.offset, 8);
    assert_eq!(cursor.order, ByteOrder::BigEndian);
    assert_eq!(cursor.body, &body[..]);
}

#[test]
fn begin_does_not_look_at_the_body() {
    let cursor = lv2_atom_sequence_begin(&[], ByteOrder::LittleEndian);
    assert_eq!(cursor.offset, 8);
    let short = [1u8, 2, 3];
    let cursor = lv2_atom_sequence_begin(&short, ByteOrder::LittleEndian);
    assert_eq!(cursor.offset, 8);
    assert_eq!(cursor.body.len(), 3);
}

#[test]
fn is_end_compares_the_offset_with_the_declared_size() {
    let body = [0u8; 64];
    let at = |offset: usize| LV2_Atom_Event_Cursor {
        body: &body,
        order: ByteOrder::LittleEndian,
        offset,
    };
    assert!(!lv2_atom_sequence_is_end(32, at(8)));
    assert!(!lv2_atom_sequence_is_end(32, at(31)));
    assert!(lv2_atom_sequence_is_end(32, at(32)));
    assert!(lv2_atom_sequence_is_end(32, at(33)));
    assert!(lv2_atom_sequence_is_end(0, at(0)));
    assert!(!lv2_atom_sequence_is_end(1, at(0)));
    assert!(!lv2_atom_sequence_is_end(u32::MAX, at(64)));
    assert!(lv2_atom_sequence_is_end(u32::MAX, at(u32::MAX as usize)));
}

#[test]
fn single_note_on_event() {
    let body: [u8; 32] = [
        0, 0, 0, 0, 0, 0, 0, 0, // unit, pad
        100, 0, 0, 0, 0, 0, 0, 0, // time stamp
        3, 0, 0, 0, 7, 0, 0, 0, // size, type
        0x90, 0x40, 0x7F, 0, 0, 0, 0, 0, // contents, padded
    ];
    let first = lv2_atom_sequence_begin(&body, ByteOrder::LittleEndian);
    assert_eq!(first.offset, 8);
    assert!(!lv2_atom_sequence_is_end(32, first));
    assert_eq!(
        first.event(),
        Some(LV2_Atom_Event { time_in_frames: 100, body: LV2_Atom { size: 3, mytype: 7 } })
    );
    let contents = first.contents().unwrap();
    assert_eq!(contents, &[0x90u8, 0x40, 0x7F]);
    assert_eq!(
        lv2_midi_message_type(contents[0]),
        LV2_Midi_Message_Type::LV2_MIDI_MSG_NOTE_ON
    );
    let behind = lv2_atom_sequence_next(first).unwrap();
    assert_eq!(behind.offset, 32);
    assert!(lv2_atom_sequence_is_end(32, behind));
}

#[test]
fn single_note_on_event_big_endian() {
    let body: [u8; 32] = [
        0, 0, 0, 0, 0, 0, 0, 0, // unit, pad
        0, 0, 0, 0, 0, 0, 0, 100, // time stamp
        0, 0, 0, 3, 0, 0, 0, 7, // size, type
        0x90, 0x40, 0x7F, 0, 0, 0, 0, 0, // contents, padded
    ];
    let first = lv2_atom_sequence_begin(&body, ByteOrder::BigEndian);
    assert!(!lv2_atom_sequence_is_end(32, first));
    assert_eq!(
        first.event(),
        Some(LV2_Atom_Event { time_in_frames: 100, body: LV2_Atom { size: 3, mytype: 7 } })
    );
    assert_eq!(first.contents().unwrap(), &[0x90u8, 0x40, 0x7F]);
    let behind = lv2_atom_sequence_next(first).unwrap();
    assert_eq!(behind.offset, 32);
    assert!(lv2_atom_sequence_is_end(32, behind));
}

#[test]
fn built_body_equals_the_hand_written_one() {
    let body = body_with_events(ByteOrder::LittleEndian, &[(100, 7, vec![0x90, 0x40, 0x7F])]);
    let expected: [u8; 32] = [
        0, 0, 0, 0, 0, 0, 0, 0, 100, 0, 0, 0, 0, 0, 0, 0, 3, 0, 0, 0, 7, 0, 0, 0, 0x90, 0x40,
        0x7F, 0, 0, 0, 0, 0,
    ];
    assert_eq!(body, expected);
}

#[test]
fn empty_body_yields_no_events() {
    for order in [ByteOrder::LittleEndian, ByteOrder::BigEndian] {
        let body = body_with_events(order, &[]);
        assert_eq!(body.len(), 8);
        let first = lv2_atom_sequence_begin(&body, order);
        assert!(lv2_atom_sequence_is_end(8, first));
        assert_eq!(offsets_of_walk(&body, order, 8), Vec::<usize>::new());
    }
}

#[test]
fn walk_visits_each_event_once() {
    let events: Vec<(i64, u32, Vec<u8>)> = vec![
        (0, 1, vec![]),
        (1, 2, vec![0x80]),
        (2, 3, vec![0x90, 0x40, 0x7F]),
        (3, 4, vec![1, 2, 3, 4, 5, 6, 7, 8]),
        (5, 5, vec![9; 9]),
        (8, 6, vec![7; 16]),
        (-13, 7, vec![3; 100]),
    ];
    for order in [ByteOrder::LittleEndian, ByteOrder::BigEndian] {
        let body = body_with_events(order, &events);
        // 8 + 16 + 24 + 24 + 24 + 32 + 32 + 120
        assert_eq!(body.len(), 280);
        let offsets = offsets_of_walk(&body, order, 280);
        assert_eq!(offsets, vec![8usize, 24, 48, 72, 96, 128, 160]);
        assert_eq!(offsets.len(), events.len());
        for (offset, (time, mytype, contents)) in offsets.iter().zip(events.iter()) {
            let cursor = LV2_Atom_Event_Cursor { body: &body, order, offset: *offset };
            let event = cursor.event().unwrap();
            assert_eq!(event.time_in_frames, *time);
            assert_eq!(event.body.mytype, *mytype);
            assert_eq!(event.body.size as usize, contents.len());
            assert_eq!(cursor.contents().unwrap(), &contents[..]);
        }
    }
}

#[test]
fn walk_yields_as_many_cursors_as_events_whose_footprints_sum_to_the_size() {
    let sizes: [u32; 5] = [0, 3, 8, 9, 20];
    let events: Vec<(i64, u32, Vec<u8>)> =
        sizes.iter().map(|size| (0i64, 1u32, vec![0u8; *size as usize])).collect();
    let footprints: u32 = sizes.iter().map(|size| 16 + lv2_atom_pad_size(*size)).sum();
    assert_eq!(footprints, 16 + 24 + 24 + 32 + 40);
    let body = body_with_events(ByteOrder::LittleEndian, &events);
    assert_eq!(body.len() as u32, 8 + footprints);
    let offsets = offsets_of_walk(&body, ByteOrder::LittleEndian, footprints);
    assert_eq!(offsets.len(), sizes.len());
    let offsets = offsets_of_walk(&body, ByteOrder::LittleEndian, 8 + footprints);
    assert_eq!(offsets.len(), sizes.len());
}

#[test]
fn walk_stops_at_the_declared_size_not_at_the_end_of_the_buffer() {
    let events: Vec<(i64, u32, Vec<u8>)> =
        vec![(0, 1, vec![0x90, 1, 2]), (1, 1, vec![0x80, 1, 2]), (2, 1, vec![0xB0, 1, 2])];
    let body = body_with_events(ByteOrder::LittleEndian, &events);
    assert_eq!(body.len(), 80);
    assert_eq!(offsets_of_walk(&body, ByteOrder::LittleEndian, 80), vec![8usize, 32, 56]);
    assert_eq!(offsets_of_walk(&body, ByteOrder::LittleEndian, 56), vec![8usize, 32]);
    assert_eq!(offsets_of_walk(&body, ByteOrder::LittleEndian, 33), vec![8usize, 32]);
    assert_eq!(offsets_of_walk(&body, ByteOrder::LittleEndian, 32), vec![8usize]);
    assert_eq!(offsets_of_walk(&body, ByteOrder::LittleEndian, 9), vec![8usize]);
    assert_eq!(offsets_of_walk(&body, ByteOrder::LittleEndian, 8), Vec::<usize>::new());
    assert_eq!(offsets_of_walk(&body, ByteOrder::LittleEndian, 0), Vec::<usize>::new());
}

#[test]
fn walk_stays_on_multiples_of_eight() {
    let events: Vec<(i64, u32, Vec<u8>)> =
        (0u8..40).map(|n| (n as i64, 1u32, vec![n; n as usize])).collect();
    let body = body_with_events(ByteOrder::BigEndian, &events);
    let offsets = offsets_of_walk(&body, ByteOrder::BigEndian, body.len() as u32);
    assert_eq!(offsets.len(), 40);
    let mut before: usize = 0;
    for offset in offsets {
        assert_eq!(offset % 8, 0);
        assert!(offset >= before + 8);
        before = offset;
    }
}

#[test]
fn next_steps_by_the_padded_size() {
    for size in 0u32..40 {
        let body =
            body_with_events(ByteOrder::LittleEndian, &[(0, 1, vec![0xAB; size as usize])]);
        let first = lv2_atom_sequence_begin(&body, ByteOrder::LittleEndian);
        let behind = lv2_atom_sequence_next(first).unwrap();
        assert_eq!(behind.offset, 8 + 16 + ((size as usize + 7) / 8) * 8);
        assert_eq!(behind.offset, body.len());
        assert_eq!(behind.order, ByteOrder::LittleEndian);
        assert_eq!(behind.body, &body[..]);
    }
}

#[test]
fn next_reads_the_size_in_the_byte_order_of_the_cursor() {
    let mut body = vec![0u8; 8];
    body.extend_from_slice(&[0, 0, 0, 0, 0, 0, 0, 0, 8, 0, 0, 0, 0, 0, 0, 0]);
    body.extend_from_slice(&[0u8; 8]);
    let little = lv2_atom_sequence_begin(&body, ByteOrder::LittleEndian);
    assert_eq!(lv2_atom_sequence_next(little).unwrap().offset, 32);
    // Read most significant byte first, the size is 0x0800_0000.
    let big = lv2_atom_sequence_begin(&body, ByteOrder::BigEndian);
    assert!(lv2_atom_sequence_next(big).is_none());
}

#[test]
fn next_is_refused_where_no_event_header_fits() {
    let body = body_with_events(ByteOrder::LittleEndian, &[(0, 1, vec![1, 2, 3])]);
    let behind = lv2_atom_sequence_next(lv2_atom_sequence_begin(&body, ByteOrder::LittleEndian))
        .unwrap();
    assert_eq!(behind.offset, body.len());
    assert!(lv2_atom_sequence_next(behind).is_none());
    let beyond = LV2_Atom_Event_Cursor {
        body: &body,
        order: ByteOrder::LittleEndian,
        offset: body.len() + 1,
    };
    assert!(lv2_atom_sequence_next(beyond).is_none());
    let far = LV2_Atom_Event_Cursor {
        body: &body,
        order: ByteOrder::LittleEndian,
        offset: usize::MAX,
    };
    assert!(lv2_atom_sequence_next(far).is_none());
    let short = LV2_Atom_Event_Cursor {
        body: &body[..23],
        order: ByteOrder::LittleEndian,
        offset: 8,
    };
    assert!(lv2_atom_sequence_next(short).is_none());
    let empty = lv2_atom_sequence_begin(&[], ByteOrder::LittleEndian);
    assert!(lv2_atom_sequence_next(empty).is_none());
}

#[test]
fn next_is_refused_where_the_padded_contents_do_not_fit() {
    let body = body_with_events(ByteOrder::LittleEndian, &[(0, 1, vec![1, 2, 3])]);
    assert_eq!(body.len(), 32);
    for len in 24..32usize {
        let first = lv2_atom_sequence_begin(&body[..len], ByteOrder::LittleEndian);
        assert!(lv2_atom_sequence_next(first).is_none());
    }
    let first = lv2_atom_sequence_begin(&body[..32], ByteOrder::LittleEndian);
    assert!(lv2_atom_sequence_next(first).is_some());
}

#[test]
fn next_is_refused_where_the_declared_size_is_beyond_the_buffer() {
    for size in [9u32, 1000, 0x7FFF_FFFF, 0xFFFF_FFF8, 0xFFFF_FFF9, u32::MAX] {
        let mut body = vec![0u8; 8];
        LV2_Atom_Event { time_in_frames: 0, body: LV2_Atom { size, mytype: 1 } }
            .encode(&mut body, ByteOrder::BigEndian);
        body.extend_from_slice(&[0u8; 8]);
        let first = lv2_atom_sequence_begin(&body, ByteOrder::BigEndian);
        assert_eq!(first.event().unwrap().body.size, size);
        assert!(lv2_atom_sequence_next(first).is_none());
        assert!(first.contents().is_none());
    }
}

#[test]
fn contents_are_the_declared_bytes_without_padding() {
    for size in 0usize..20 {
        let contents: Vec<u8> = (0..size).map(|n| 0x80 + n as u8).collect();
        let body = body_with_events(ByteOrder::BigEndian, &[(0, 1, contents.clone())]);
        let first = lv2_atom_sequence_begin(&body, ByteOrder::BigEndian);
        assert_eq!(first.contents().unwrap(), &contents[..]);
    }
}

#[test]
fn contents_need_no_room_for_padding() {
    let body = body_with_events(ByteOrder::LittleEndian, &[(0, 1, vec![1, 2, 3])]);
    let first = lv2_atom_sequence_begin(&body[..27], ByteOrder::LittleEndian);
    assert_eq!(first.contents().unwrap(), &[1u8, 2, 3]);
    assert!(lv2_atom_sequence_next(first).is_none());
    let first = lv2_atom_sequence_begin(&body[..26], ByteOrder::LittleEndian);
    assert!(first.contents().is_none());
    let first = lv2_atom_sequence_begin(&body[..23], ByteOrder::LittleEndian);
    assert!(first.contents().is_none());
    assert!(first.event().is_none());
}

#[test]
fn event_is_read_only_where_its_header_fits() {
    let body = body_with_events(ByteOrder::LittleEndian, &[(42, 9, vec![])]);
    assert_eq!(body.len(), 24);
    let first = lv2_atom_sequence_begin(&body, ByteOrder::LittleEndian);
    assert_eq!(
        first.event(),
        Some(LV2_Atom_Event { time_in_frames: 42, body: LV2_Atom { size: 0, mytype: 9 } })
    );
    assert_eq!(first.contents().unwrap(), &[] as &[u8]);
    let behind = lv2_atom_sequence_next(first).unwrap();
    assert_eq!(behind.offset, 24);
    assert_eq!(behind.event(), None);
    assert!(behind.contents().is_none());
}

#[test]
fn events_of_a_walk_are_classified_by_their_first_byte() {
    let events: Vec<(i64, u32, Vec<u8>)> = vec![
        (0, 7, vec![0x90, 60, 100]),
        (10, 7, vec![0x80, 60, 0]),
        (20, 7, vec![0xB1, 7, 127]),
        (30, 7, vec![0xF8]),
        (40, 7, vec![0x45]),
        (50, 7, vec![0x9F, 1, 1]),
    ];
    let body = body_with_events(ByteOrder::LittleEndian, &events);
    let mut kinds: Vec<LV2_Midi_Message_Type> = Vec::new();
    let mut times: Vec<i64> = Vec::new();
    let mut cursor = lv2_atom_sequence_begin(&body, ByteOrder::LittleEndian);
    while !lv2_atom_sequence_is_end(body.len() as u32, cursor) {
        times.push(cursor.event().unwrap().time_in_frames);
        kinds.push(lv2_midi_message_type(cursor.contents().unwrap()[0]));
        cursor = lv2_atom_sequence_next(cursor).unwrap();
    }
    assert_eq!(times, vec![0i64, 10, 20, 30, 40, 50]);
    assert_eq!(
        kinds,
        vec![
            LV2_Midi_Message_Type::LV2_MIDI_MSG_NOTE_ON,
            LV2_Midi_Message_Type::LV2_MIDI_MSG_NOTE_OFF,
            LV2_Midi_Message_Type::LV2_MIDI_MSG_NOT_IMPLEMENTED,
            LV2_Midi_Message_Type::LV2_MIDI_MSG_INVALID,
            LV2_Midi_Message_Type::LV2_MIDI_MSG_INVALID,
            LV2_Midi_Message_Type::LV2_MIDI_MSG_NOTE_ON,
        ]
    );
}

#[test]
fn sequence_events_opens_the_body_behind_the_atom_header() {
    let buffer: [u8; 40] = [
        32, 0, 0, 0, 11, 0, 0, 0, // size, type of the sequence atom
        5, 0, 0, 0, 0, 0, 0, 0, // unit, pad
        100, 0, 0, 0, 0, 0, 0, 0, // time stamp
        3, 0, 0, 0, 7, 0, 0, 0, // size, type
        0x90, 0x40, 0x7F, 0, 0, 0, 0, 0, // contents, padded
    ];
    let (size, first) = lv2::lv2_atom_sequence_events(&buffer, ByteOrder::LittleEndian).unwrap();
    assert_eq!(size, 32);
    assert_eq!(first.offset, 8);
    assert_eq!(first.order, ByteOrder::LittleEndian);
    assert_eq!(first.body, &buffer[8..]);
    assert!(!lv2_atom_sequence_is_end(size, first));
    assert_eq!(first.event().unwrap().time_in_frames, 100);
    assert_eq!(first.contents().unwrap(), &[0x90u8, 0x40, 0x7F]);
    let behind = lv2_atom_sequence_next(first).unwrap();
    assert_eq!(behind.offset, 32);
    assert!(lv2_atom_sequence_is_end(size, behind));
}

#[test]
fn sequence_events_reads_the_size_in_the_given_byte_order() {
    let mut buffer = vec![0u8, 0, 1, 8, 0, 0, 0, 11];
    buffer.extend_from_slice(&[0u8; 8]);
    let (size, first) = lv2::lv2_atom_sequence_events(&buffer, ByteOrder::BigEndian).unwrap();
    assert_eq!(size, 0x0108);
    assert_eq!(first.order, ByteOrder::BigEndian);
    assert_eq!(first.body.len(), 8);
    let (size, _) = lv2::lv2_atom_sequence_events(&buffer, ByteOrder::LittleEndian).unwrap();
    assert_eq!(size, 0x0801_0000);
}

#[test]
fn sequence_events_of_an_empty_sequence() {
    let mut buffer: Vec<u8> = Vec::new();
    lv2::LV2_Atom_Sequence {
        atom: LV2_Atom { size: 8, mytype: 11 },
        body: LV2_Atom_Sequence_Body { unit: 0, pad: 0 },
    }
    .encode(&mut buffer, ByteOrder::BigEndian);
    let (size, first) = lv2::lv2_atom_sequence_events(&buffer, ByteOrder::BigEndian).unwrap();
    assert_eq!(size, 8);
    assert_eq!(first.body.len(), 8);
    assert!(lv2_atom_sequence_is_end(size, first));
}

#[test]
fn sequence_events_needs_the_whole_sequence_header() {
    let buffer = [0u8; 16];
    assert!(lv2::lv2_atom_sequence_events(&buffer, ByteOrder::LittleEndian).is_some());
    for len in 0..16usize {
        assert!(lv2::lv2_atom_sequence_events(&buffer[..len], ByteOrder::LittleEndian).is_none());
        assert!(lv2::lv2_atom_sequence_events(&buffer[..len], ByteOrder::BigEndian).is_none());
    }
}
