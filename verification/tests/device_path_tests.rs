use patina::device_path::{
    DevicePathNode, DevicePathWalker, END_SUBTYPE_ENTIRE, END_SUBTYPE_INSTANCE, HW_SUBTYPE_BMC,
    HW_SUBTYPE_CONTROLLER, HW_SUBTYPE_MMAP, HW_SUBTYPE_PCCARD, HW_SUBTYPE_PCI, HW_SUBTYPE_VENDOR,
    MEDIA_SUBTYPE_HARDDRIVE, TYPE_ACPI, TYPE_END, TYPE_HARDWARE, TYPE_MEDIA,
    concat_device_path_to_vec, copy_device_path_to_vec, device_path_node_count,
    is_device_path_end, protocol_to_subtype_str, remaining_device_path, render_device_path,
};
use patina::error::EfiError;

#[test]
fn device_path_node_count_should_return_the_right_number_of_nodes_and_length() {
    //build a device path as a byte array for the test.
    let device_path_bytes = [
        TYPE_HARDWARE,
        HW_SUBTYPE_PCI,
        0x6,  //length[0]
        0x0,  //length[1]
        0x0,  //func
        0x1C, //device
        TYPE_HARDWARE,
        HW_SUBTYPE_PCI,
        0x6, //length[0]
        0x0, //length[1]
        0x0, //func
        0x0, //device
        TYPE_HARDWARE,
        HW_SUBTYPE_PCI,
        0x6, //length[0]
        0x0, //length[1]
        0x2, //func
        0x0, //device
        TYPE_END,
        END_SUBTYPE_ENTIRE,
        0x4,  //length[0]
        0x00, //length[1]
    ];
    let (nodes, length) = device_path_node_count(&device_path_bytes).unwrap();
    assert_eq!(nodes, 4);
    assert_eq!(length, device_path_bytes.len());
}

#[test]
fn remaining_device_path_should_return_remaining_device_path() {
    //build device paths as byte arrays for the tests.
    let device_path_a_bytes = [
        TYPE_HARDWARE,
        HW_SUBTYPE_PCI,
        0x6,  //length[0]
        0x0,  //length[1]
        0x0,  //func
        0x1C, //device
        TYPE_HARDWARE,
        HW_SUBTYPE_PCI,
        0x6, //length[0]
        0x0, //length[1]
        0x0, //func
        0x0, //device
        TYPE_END,
        END_SUBTYPE_ENTIRE,
        0x4,  //length[0]
        0x00, //length[1]
    ];
    let device_path_b_bytes = [
        TYPE_HARDWARE,
        HW_SUBTYPE_PCI,
        0x6,  //length[0]
        0x0,  //length[1]
        0x0,  //func
        0x1C, //device
        TYPE_HARDWARE,
        HW_SUBTYPE_PCI,
        0x6, //length[0]
        0x0, //length[1]
        0x0, //func
        0x0, //device
        TYPE_HARDWARE,
        HW_SUBTYPE_PCI,
        0x6, //length[0]
        0x0, //length[1]
        0x2, //func
        0x0, //device
        TYPE_END,
        END_SUBTYPE_ENTIRE,
        0x4,  //length[0]
        0x00, //length[1]
    ];
    let device_path_c_bytes = [
        TYPE_HARDWARE,
        HW_SUBTYPE_PCI,
        0x6,  //length[0]
        0x0,  //length[1]
        0x0,  //func
        0x0A, //device
        TYPE_END,
        END_SUBTYPE_ENTIRE,
        0x4,  //length[0]
        0x00, //length[1]
    ];

    // a is a prefix of b.
    let result = remaining_device_path(&device_path_a_bytes, &device_path_b_bytes).unwrap();
    assert!(result.is_some());
    let result = result.unwrap();
    // the remaining device path of b after going past the prefix in a should
    // start at the size of a in bytes minus the size of the end node.
    let a_path_length = device_path_node_count(&device_path_a_bytes).unwrap();
    let offset = a_path_length.1 - 4;
    assert_eq!(result, (offset, a_path_length.0 - 1));

    //b is equal to b.
    let result = remaining_device_path(&device_path_b_bytes, &device_path_b_bytes).unwrap();
    assert!(result.is_some());
    let result = result.unwrap();
    let b_path_length = device_path_node_count(&device_path_b_bytes).unwrap();
    let offset = b_path_length.1 - 4;
    assert_eq!(result, (offset, b_path_length.0 - 1));

    //a is not a prefix of c.
    let result = remaining_device_path(&device_path_a_bytes, &device_path_c_bytes).unwrap();
    assert!(result.is_none());

    //b is not a prefix of a.
    let result = remaining_device_path(&device_path_b_bytes, &device_path_a_bytes).unwrap();
    assert!(result.is_none());
}

#[test]
fn device_path_walker_should_return_correct_device_path_nodes() {
    //build a device path as a byte array for the test.
    let device_path_bytes = [
        TYPE_HARDWARE,
        HW_SUBTYPE_PCI,
        0x6,  //length[0]
        0x0,  //length[1]
        0x0,  //func
        0x1C, //device
        TYPE_HARDWARE,
        HW_SUBTYPE_PCI,
        0x6, //length[0]
        0x0, //length[1]
        0x0, //func
        0x0, //device
        TYPE_HARDWARE,
        HW_SUBTYPE_PCI,
        0x6, //length[0]
        0x0, //length[1]
        0x2, //func
        0x0, //device
        TYPE_END,
        END_SUBTYPE_ENTIRE,
        0x4,  //length[0]
        0x00, //length[1]
    ];

    let mut device_path_walker = DevicePathWalker::new();

    let node = device_path_walker.next(&device_path_bytes).unwrap();
    assert_eq!(node.node_type, TYPE_HARDWARE);
    assert_eq!(node.sub_type, HW_SUBTYPE_PCI);
    assert_eq!(node.data, vec![0x0u8, 0x1C]);

    let node = device_path_walker.next(&device_path_bytes).unwrap();
    assert_eq!(node.node_type, TYPE_HARDWARE);
    assert_eq!(node.sub_type, HW_SUBTYPE_PCI);
    assert_eq!(node.data, vec![0x0u8, 0x0]);

    let node = device_path_walker.next(&device_path_bytes).unwrap();
    assert_eq!(node.node_type, TYPE_HARDWARE);
    assert_eq!(node.sub_type, HW_SUBTYPE_PCI);
    assert_eq!(node.data, vec![0x02u8, 0x0]);

    let node = device_path_walker.next(&device_path_bytes).unwrap();
    assert_eq!(node.node_type, TYPE_END);
    assert_eq!(node.sub_type, END_SUBTYPE_ENTIRE);
    assert_eq!(node.data, vec![]);

    assert_eq!(device_path_walker.next(&device_path_bytes), None);
}

#[test]
fn device_path_nodes_can_be_compared_for_equality() {
    //build a device path as a byte array for the test.
    let device_path_bytes = [
        TYPE_HARDWARE,
        HW_SUBTYPE_PCI,
        0x6, //length[0]
        0x0, //length[1]
        0x0, //func
        0x0, //device
        TYPE_HARDWARE,
        HW_SUBTYPE_PCI,
        0x6, //length[0]
        0x0, //length[1]
        0x0, //func
        0x0, //device
        TYPE_HARDWARE,
        HW_SUBTYPE_PCI,
        0x6, //length[0]
        0x0, //length[1]
        0x2, //func
        0x0, //device
        TYPE_END,
        END_SUBTYPE_ENTIRE,
        0x4,  //length[0]
        0x00, //length[1]
    ];
    let mut walker = DevicePathWalker::new();
    let mut nodes: Vec<DevicePathNode> = Vec::new();
    while let Some(node) = walker.next(&device_path_bytes) {
        nodes.push(node);
    }

    assert_eq!(nodes[0], nodes[0]);
    assert_eq!(nodes[0], nodes[1]);
    assert_ne!(nodes[0], nodes[2]);
    assert_ne!(nodes[0], nodes[3]);
    assert_ne!(nodes[1], nodes[2]);
    assert_ne!(nodes[1], nodes[3]);
    assert_ne!(nodes[2], nodes[3]);
}

#[test]
fn device_path_node_can_be_converted_to_boxed_slice() {
    //build a device path as a byte array for the test.
    let device_path_bytes = [
        TYPE_HARDWARE,
        HW_SUBTYPE_PCI,
        0x6, //length[0]
        0x0, //length[1]
        0x0, //func
        0x0, //device
        TYPE_HARDWARE,
        HW_SUBTYPE_PCI,
        0x6, //length[0]
        0x0, //length[1]
        0x0, //func
        0x0, //device
        TYPE_HARDWARE,
        HW_SUBTYPE_PCI,
        0x6, //length[0]
        0x0, //length[1]
        0x2, //func
        0x0, //device
        TYPE_END,
        END_SUBTYPE_ENTIRE,
        0x4,  //length[0]
        0x00, //length[1]
    ];
    let copied_device_path = copy_device_path_to_vec(&device_path_bytes);

    assert_eq!(copied_device_path.unwrap(), device_path_bytes.to_vec());
}

#[test]
fn device_path_walker_can_be_converted_to_string() {
    let device_path_bytes = [
        TYPE_HARDWARE,
        HW_SUBTYPE_PCI,
        0x6,  //length[0]
        0x0,  //length[1]
        0x0,  //func
        0x1C, //device
        TYPE_ACPI,
        0x0, // subtype doesn't matter for ACPI
        0xC, //length[0]
        0x0, //length[1]
        0x0,
        0x1,
        0x2,
        0x3,
        0x4,
        0x5,
        0x6,
        0x7,
        TYPE_END,
        END_SUBTYPE_ENTIRE,
        0x4,  //length[0]
        0x00, //length[1]
    ];
    let rendered = render_device_path(&device_path_bytes);
    let string = String::from_utf8(rendered).unwrap();

    assert_eq!(string, "Pci: 0x00,0x1c/Acpi: 0x00,0x01,0x02,0x03,0x04,0x05,0x06,0x07/");
}

#[test]
fn test_protocol_to_subtype_str() {
    assert_eq!(protocol_to_subtype_str(TYPE_HARDWARE, HW_SUBTYPE_PCI), "Pci");
    assert_eq!(protocol_to_subtype_str(TYPE_HARDWARE, HW_SUBTYPE_PCCARD), "PcCard");
    assert_eq!(protocol_to_subtype_str(TYPE_HARDWARE, HW_SUBTYPE_MMAP), "MemMap");
    assert_eq!(protocol_to_subtype_str(TYPE_HARDWARE, HW_SUBTYPE_VENDOR), "Vendor");
    assert_eq!(protocol_to_subtype_str(TYPE_HARDWARE, HW_SUBTYPE_CONTROLLER), "Controller");
    assert_eq!(protocol_to_subtype_str(TYPE_HARDWARE, HW_SUBTYPE_BMC), "Bmc");
    assert_eq!(protocol_to_subtype_str(TYPE_HARDWARE, 99), "UnknownHardware");
    assert_eq!(protocol_to_subtype_str(TYPE_MEDIA, MEDIA_SUBTYPE_HARDDRIVE), "HardDrive");
    assert_eq!(protocol_to_subtype_str(TYPE_END, END_SUBTYPE_INSTANCE), "EndInstance");
    assert_eq!(protocol_to_subtype_str(99, 0), "UnknownType");
}

#[test]
fn concatenated_device_path_drops_the_first_end_node() {
    let first = [
        TYPE_HARDWARE,
        HW_SUBTYPE_PCI,
        0x6,
        0x0,
        0x0,
        0x1C,
        TYPE_END,
        END_SUBTYPE_ENTIRE,
        0x4,
        0x00,
    ];
    let second = [
        TYPE_HARDWARE,
        HW_SUBTYPE_PCI,
        0x6,
        0x0,
        0x2,
        0x0,
        TYPE_END,
        END_SUBTYPE_ENTIRE,
        0x4,
        0x00,
    ];
    let joined = concat_device_path_to_vec(&first, &second).unwrap();
    assert_eq!(
        joined,
        vec![
            TYPE_HARDWARE,
            HW_SUBTYPE_PCI,
            0x6,
            0x0,
            0x0,
            0x1C,
            TYPE_HARDWARE,
            HW_SUBTYPE_PCI,
            0x6,
            0x0,
            0x2,
            0x0,
            TYPE_END,
            END_SUBTYPE_ENTIRE,
            0x4,
            0x00,
        ]
    );
    let (nodes, size) = device_path_node_count(&joined).unwrap();
    assert_eq!(nodes, 3);
    assert_eq!(size, joined.len());
}

#[test]
fn malformed_device_path_is_rejected() {
    // A header shorter than four bytes.
    assert_eq!(device_path_node_count(&[TYPE_END, END_SUBTYPE_ENTIRE]), Err(EfiError::InvalidParameter));
    // A node length under four.
    assert_eq!(
        device_path_node_count(&[TYPE_HARDWARE, HW_SUBTYPE_PCI, 0x2, 0x0]),
        Err(EfiError::InvalidParameter)
    );
    // A node running past the buffer.
    assert_eq!(
        device_path_node_count(&[TYPE_HARDWARE, HW_SUBTYPE_PCI, 0x8, 0x0, 0x0]),
        Err(EfiError::InvalidParameter)
    );
    // A path missing its end node.
    assert_eq!(
        device_path_node_count(&[TYPE_HARDWARE, HW_SUBTYPE_PCI, 0x4, 0x0]),
        Err(EfiError::InvalidParameter)
    );
    assert!(is_device_path_end(&[TYPE_END, END_SUBTYPE_ENTIRE, 0x4, 0x0], 0));
    assert!(!is_device_path_end(&[TYPE_HARDWARE, HW_SUBTYPE_PCI, 0x4, 0x0], 0));
}
