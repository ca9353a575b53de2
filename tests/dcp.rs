use pn_dcp::block::{Block, BlockCommon, BlockIp, BlockResp};
use pn_dcp::comm::{BytesWrap, DcpError, MacAddr};
use pn_dcp::options::{
    BlockError, BlockInfo, BlockQualifier, DeviceOptionsBuilder, InnerIpAddr, IpBlockInfo,
    OptionAndSub, OptionAndSubValue,
};
use pn_dcp::packet::{
    DcpHead, DcpPacket, PacketGetReq, PacketGetResp, PacketIdentReq, PacketIdentResp,
    PacketSetReq, PacketSetResp, PnDcpTy,
};
use pn_dcp::view::{
    BlockPacket, Blocks, EthernetPacket, MutableBlockPacket, MutableEthernetPacket, OptionSuboptions,
};

const HOST: [u8; 6] = [0x00, 0x0c, 0x29, 0x6f, 0x3a, 0x11];
const DEVICE: [u8; 6] = [0x28, 0x63, 0x36, 0x8a, 0x1b, 0x2c];
const IP: [u8; 12] = [
    0xc0, 0xa8, 0xc7, 0xf5, 0xff, 0xff, 0xff, 0x00, 0xc0, 0xa8, 0xc7, 0xfe,
];

fn frame(dest: &[u8], src: &[u8], tag: [u8; 4], xid: [u8; 4], delay: [u8; 2], blocks: &[u8]) -> Vec<u8> {
    let mut data = Vec::new();
    data.extend_from_slice(dest);
    data.extend_from_slice(src);
    data.extend_from_slice(&[0x88, 0x92]);
    data.extend_from_slice(&tag);
    data.extend_from_slice(&xid);
    data.extend_from_slice(&delay);
    data.extend_from_slice(&(blocks.len() as u16).to_be_bytes());
    data.extend_from_slice(blocks);
    data
}

fn get_ident_req() -> Vec<u8> {
    let mut blocks = vec![0x02, 0x01, 0x00, 0x0c];
    blocks.extend_from_slice(b"S7-200 SMART");
    frame(&[0x01, 0x0e, 0xcf, 0x00, 0x00, 0x00], &HOST, [0xfe, 0xfe, 0x05, 0x00], [0x01, 0x00, 0x00, 0x2a], [0x00, 0x80], &blocks)
}

fn get_ident_resp() -> Vec<u8> {
    let mut blocks = vec![0x02, 0x01, 0x00, 0x0e, 0x00, 0x00];
    blocks.extend_from_slice(b"S7-200 SMART");
    blocks.extend_from_slice(&[0x02, 0x05, 0x00, 0x14, 0x00, 0x00]);
    blocks.extend_from_slice(&[
        0x02, 0x01, 0x02, 0x02, 0x02, 0x03, 0x02, 0x04, 0x02, 0x05, 0x02, 0x06, 0x01, 0x01, 0x01,
        0x02, 0x03, 0x3d,
    ]);
    blocks.extend_from_slice(&[0x02, 0x02, 0x00, 0x0d, 0x00, 0x00]);
    blocks.extend_from_slice(b"bb-abci.111");
    blocks.push(0x00);
    blocks.extend_from_slice(&[0x02, 0x03, 0x00, 0x06, 0x00, 0x00, 0x00, 0x2a, 0x00, 0x00]);
    blocks.extend_from_slice(&[0x02, 0x04, 0x00, 0x04, 0x00, 0x00, 0x02, 0x00]);
    blocks.extend_from_slice(&[0x01, 0x02, 0x00, 0x0e, 0x00, 0x01]);
    blocks.extend_from_slice(&IP);
    frame(&HOST, &DEVICE, [0xfe, 0xff, 0x05, 0x01], [0x01, 0x00, 0x00, 0x2a], [0x00, 0x00], &blocks)
}

fn get_get_req() -> Vec<u8> {
    frame(&DEVICE, &HOST, [0xfe, 0xfd, 0x03, 0x00], [0x00, 0x00, 0x00, 0x05], [0x00, 0x00], &[0x01, 0x02, 0x03, 0x3d])
}

fn get_get_resp() -> Vec<u8> {
    let mut blocks = vec![0x01, 0x02, 0x00, 0x0e, 0x00, 0x01];
    blocks.extend_from_slice(&IP);
    blocks.extend_from_slice(&[0x05, 0x04, 0x00, 0x03, 0x03, 0x3d, 0x02, 0x00]);
    frame(&HOST, &DEVICE, [0xfe, 0xfd, 0x03, 0x01], [0x00, 0x00, 0x00, 0x05], [0x00, 0x00], &blocks)
}

fn get_set_req() -> Vec<u8> {
    let mut blocks = vec![0x01, 0x02, 0x00, 0x0e, 0x00, 0x01];
    blocks.extend_from_slice(&IP);
    frame(&DEVICE, &HOST, [0xfe, 0xfd, 0x04, 0x00], [0x00, 0x00, 0x00, 0x07], [0x00, 0x00], &blocks)
}

fn get_set_resp() -> Vec<u8> {
    frame(&HOST, &DEVICE, [0xfe, 0xfd, 0x04, 0x01], [0x00, 0x00, 0x00, 0x07], [0x00, 0x00], &[0x05, 0x04, 0x00, 0x03, 0x01, 0x02, 0x00, 0x00])
}

/// The frame padded with zeros to the Ethernet minimum of 60 bytes.
fn ext(mut data: Vec<u8>) -> Vec<u8> {
    while data.len() < 60 {
        data.push(0);
    }
    data
}

fn get_blocks(data: &[u8]) -> Option<&[u8]> {
    let len = u16::from_be_bytes([*data.get(24)?, *data.get(25)?]) as usize;
    data.get(26..26 + len)
}

fn get_src_array(data: &[u8]) -> Option<[u8; 6]> {
    Some([data[6], data[7], data[8], data[9], data[10], data[11]])
}

fn get_destination_array(data: &[u8]) -> Option<[u8; 6]> {
    Some([data[0], data[1], data[2], data[3], data[4], data[5]])
}

fn get_xid(data: &[u8]) -> Option<[u8; 4]> {
    Some([data[18], data[19], data[20], data[21]])
}

fn get_response_delay(data: &[u8]) -> Option<u16> {
    Some(u16::from_be_bytes([data[22], data[23]]))
}

fn init_mac_by_array(a: [u8; 6]) -> MacAddr {
    MacAddr::new(a[0], a[1], a[2], a[3], a[4], a[5])
}

fn ip() -> InnerIpAddr {
    InnerIpAddr::new_by_ipv4([192, 168, 199, 245], [255, 255, 255, 0], [192, 168, 199, 254])
}

fn eq_option_and_sub(val: Option<&OptionAndSub>, left: OptionAndSub) -> bool {
    if let Some(right) = val {
        right == &left
    } else {
        false
    }
}

#[test]
fn blocks_parse_test() {
    for data in [get_ident_req(), get_ident_resp(), get_get_resp(), get_set_req(), get_set_resp()] {
        let blocks_data = get_blocks(data.as_slice()).unwrap();
        let blocks = Blocks::new(blocks_data);
        println!("{:?}", blocks);
    }
}

#[test]
fn blocks_parse_test_ident() {
    let data = get_ident_req();
    let blocks_data = get_blocks(data.as_slice()).unwrap();
    let blocks = Blocks::new(blocks_data);
    println!("{:?}", blocks);

    let data = get_ident_resp();
    let blocks_data = get_blocks(data.as_slice()).unwrap();
    let blocks = Blocks::new(blocks_data);
    println!("{:?}", blocks);
}

#[test]
fn test_get_req() {
    let data = get_get_req();
    let blocks_data = get_blocks(data.as_slice()).unwrap();
    let blocks = OptionSuboptions::new(blocks_data);
    assert!(eq_option_and_sub(blocks.get(0), OptionAndSub::IpAddr));
    assert!(eq_option_and_sub(blocks.get(1), OptionAndSub::DHCP(61)));
}

#[test]
fn get_test_test_get() {
    let data = get_get_req();
    let get = PacketGetReq::from_bytes(data.as_slice()).unwrap();
    let src = get_src_array(data.as_slice()).unwrap();
    let dest = get_destination_array(data.as_slice()).unwrap();

    let mut get_req = PacketGetReq::new(init_mac_by_array(src), init_mac_by_array(dest));
    get_req.set_xid(get_xid(data.as_slice()).unwrap());

    get_req.append_block(OptionAndSub::IpAddr);
    get_req.append_block(OptionAndSub::DHCP(0x3d));

    assert_eq!(get_req.options(), vec![OptionAndSub::IpAddr, OptionAndSub::DHCP(0x3d)]);

    assert_eq!(get, get_req);
    assert_eq!(data, get_req.to_vec());
}

#[test]
fn test_get_resp() {
    let data = get_get_resp();
    let get = PacketGetResp::from_bytes(data.as_slice()).unwrap();
    let src = get_src_array(data.as_slice()).unwrap();
    let dest = get_destination_array(data.as_slice()).unwrap();

    let mut get_req = PacketGetResp::new(init_mac_by_array(src), init_mac_by_array(dest));
    get_req.set_xid(get_xid(data.as_slice()).unwrap());

    let ip = ip();
    get_req.append_block_ip(ip.clone(), IpBlockInfo::IpSet);
    get_req.append_block_resp(OptionAndSub::DHCP(0x3d), BlockError::SuboptionUnsuppOrNoDataSetAvail);

    assert_eq!(get_req.block_ip().unwrap(), BlockIp::new(ip, IpBlockInfo::IpSet));
    assert_eq!(
        get_req.block_resps(),
        vec![BlockResp(OptionAndSub::DHCP(0x3d), BlockError::SuboptionUnsuppOrNoDataSetAvail),]
    );

    assert_eq!(data, get_req.to_vec());
    assert_eq!(get, get_req);
}

#[test]
fn test_ext() {
    let req = PacketGetReq::from_bytes(get_get_req().as_slice()).unwrap();
    let req_ext = PacketGetReq::from_bytes(ext(get_get_req()).as_slice()).unwrap();
    assert_eq!(req, req_ext);

    let resp = PacketGetResp::from_bytes(get_get_resp().as_slice()).unwrap();
    let resp_ext = PacketGetResp::from_bytes(ext(get_get_resp()).as_slice()).unwrap();
    assert_eq!(resp, resp_ext);
}

#[test]
fn ident_test_ident_req_test() {
    let ident_req_data = get_ident_req();
    let req = PacketIdentReq::from_bytes(ident_req_data.as_slice()).unwrap();
    let src = get_src_array(ident_req_data.as_slice()).unwrap();
    let xid = get_xid(ident_req_data.as_slice()).unwrap();
    let reserved_or_delay = get_response_delay(ident_req_data.as_slice()).unwrap().to_be_bytes();

    let mut man = PacketIdentReq::new(MacAddr::new(src[0], src[1], src[2], src[3], src[4], src[5]));
    man.set_xid(xid);
    man.set_reserved_or_delay(reserved_or_delay);
    let manufacturer =
        OptionAndSubValue::ManufacturerSpecific(BytesWrap::from_vec("S7-200 SMART".as_bytes().to_vec()));
    man.append_block_by_option(manufacturer.clone());

    assert_eq!(man.options(), vec![manufacturer]);
    assert_eq!(req, man);
    assert_eq!(ident_req_data, man.to_vec());
}

#[test]
fn ident_test_ident_resp_test() {
    let ident_resp_data = get_ident_resp();
    let req = PacketIdentResp::from_bytes(ident_resp_data.as_slice()).unwrap();
    let src = get_src_array(ident_resp_data.as_slice()).unwrap();
    let dest = get_destination_array(ident_resp_data.as_slice()).unwrap();
    let mut resp = PacketIdentResp::new(init_mac_by_array(src), init_mac_by_array(dest));
    resp.set_xid(get_xid(ident_resp_data.as_slice()).unwrap());
    let manufacturer =
        OptionAndSubValue::ManufacturerSpecific(BytesWrap::from_vec("S7-200 SMART".as_bytes().to_vec()));
    resp.append_block_common_default(manufacturer.clone());

    let device_options = DeviceOptionsBuilder::default()
        .append_option(OptionAndSub::ManufacturerSpecific)
        .append_option(OptionAndSub::NameOfStation)
        .append_option(OptionAndSub::DeviceId)
        .append_option(OptionAndSub::DeviceRole)
        .append_option(OptionAndSub::DeviceOptions)
        .append_option(OptionAndSub::AliasName)
        .append_option(OptionAndSub::MarAddr)
        .append_option(OptionAndSub::IpAddr)
        .append_option(OptionAndSub::DHCP(61))
        .build();
    device_options.clone().append_to_ident_resp_default(&mut resp);
    let name = OptionAndSubValue::NameOfStation(BytesWrap::from_vec("bb-abci.111".as_bytes().to_vec()));
    name.clone().append_to_ident_resp_default(&mut resp);
    let device_id = OptionAndSubValue::DeviceId([0x00, 0x2a], [0x00, 0x00]);
    device_id.clone().append_to_ident_resp_default(&mut resp);
    let device_role = OptionAndSubValue::DeviceRole(0x02, 0x00);
    device_role.clone().append_to_ident_resp_default(&mut resp);
    let ip = ip();
    ip.clone().append_to_ident_resp(&mut resp, IpBlockInfo::IpSet);

    assert_eq!(resp.block_ip().unwrap(), BlockIp::new(ip, IpBlockInfo::IpSet));
    assert_eq!(
        resp.block_commons(),
        vec![
            BlockCommon::new(manufacturer),
            BlockCommon::new(device_options),
            BlockCommon::new(name),
            BlockCommon::new(device_id),
            BlockCommon::new(device_role)
        ]
    );
    assert_eq!(ident_resp_data, resp.to_vec());
    assert_eq!(req, resp);
}

#[test]
fn ident_req_ext_test() {
    let req_ext = PacketIdentReq::from_bytes(ext(get_ident_req()).as_slice()).unwrap();
    let req = PacketIdentReq::from_bytes(get_ident_req().as_slice()).unwrap();
    assert_eq!(req, req_ext);
}

#[test]
fn ident_resp_ext_test() {
    let resp = PacketIdentResp::from_bytes(get_ident_resp().as_slice()).unwrap();
    let mut data = get_ident_resp();
    data.extend_from_slice(&[0, 0, 0, 0]);
    let resp_ext = PacketIdentResp::from_bytes(data.as_slice()).unwrap();
    assert_eq!(resp, resp_ext);
}

#[test]
fn set_test_test_req() {
    let data = get_set_req();
    let set = PacketSetReq::from_bytes(data.as_slice()).unwrap();
    let src = get_src_array(data.as_slice()).unwrap();
    let dest = get_destination_array(data.as_slice()).unwrap();

    let mut get_req = PacketSetReq::new(
        init_mac_by_array(src),
        init_mac_by_array(dest),
        ip().to_option(),
        BlockQualifier::SavePermanent,
    );
    get_req.set_xid(get_xid(data.as_slice()).unwrap());

    assert_eq!(data, get_req.to_vec());
    assert_eq!(set, get_req);
}

#[test]
fn set_test_test_resp() {
    let data = get_set_resp();
    let set = PacketSetResp::from_bytes(data.as_slice()).unwrap();

    let src = get_src_array(data.as_slice()).unwrap();
    let dest = get_destination_array(data.as_slice()).unwrap();

    let mut get_req = PacketSetResp::new(
        init_mac_by_array(src),
        init_mac_by_array(dest),
        OptionAndSub::IpAddr,
        BlockError::NoError,
    );
    get_req.set_xid(get_xid(data.as_slice()).unwrap());

    assert_eq!(data, get_req.to_vec());
    assert_eq!(set, get_req);
}

#[test]
fn dcp_packet_tests_test_ident() {
    let res = DcpPacket::from_bytes(get_ident_req().as_slice());
    assert!(res.is_ok());
    assert!(res.unwrap().is_ident_req());
    let res = DcpPacket::from_bytes(get_ident_resp().as_slice());
    assert!(res.is_ok());
    assert!(res.unwrap().is_ident_resp());
}

#[test]
fn dcp_packet_tests_test_get() {
    let res = DcpPacket::from_bytes(get_get_req().as_slice());
    assert!(res.is_ok());
    assert!(res.unwrap().is_get_req());
    let res = DcpPacket::from_bytes(get_get_resp().as_slice());
    assert!(res.is_ok());
    assert!(res.unwrap().is_get_resp());
}

#[test]
fn test_set() {
    let res = DcpPacket::from_bytes(get_set_req().as_slice());
    assert!(res.is_ok());
    assert!(res.unwrap().is_set_req());
    let res = DcpPacket::from_bytes(get_set_resp().as_slice());
    assert!(res.is_ok());
    assert!(res.unwrap().is_set_resp());
}

#[test]
fn option_code_round_trip_all_pairs() {
    for a in 0..=255u8 {
        for b in 0..=255u8 {
            assert_eq!(OptionAndSub::new(a, b).to_u8s(), (a, b));
            assert_eq!(OptionAndSub::new(a, b).to_u8_array(), [a, b]);
        }
    }
    assert_eq!(OptionAndSub::new(3, 0x3d), OptionAndSub::DHCP(0x3d));
    assert_eq!(OptionAndSub::new(4, 7), OptionAndSub::LLDP(7));
    assert_eq!(OptionAndSub::new(9, 9), OptionAndSub::Other(9, 9));
    assert_eq!(OptionAndSub::get((2, 2)), OptionAndSub::NameOfStation);
}

#[test]
fn captures_encode_back_to_their_bytes() {
    let d = get_ident_req();
    assert_eq!(PacketIdentReq::from_bytes(&d).unwrap().to_vec(), d);
    let d = get_ident_resp();
    assert_eq!(PacketIdentResp::from_bytes(&d).unwrap().to_vec(), d);
    let d = get_get_req();
    assert_eq!(PacketGetReq::from_bytes(&d).unwrap().to_vec(), d);
    let d = get_get_resp();
    assert_eq!(PacketGetResp::from_bytes(&d).unwrap().to_vec(), d);
    let d = get_set_req();
    assert_eq!(PacketSetReq::from_bytes(&d).unwrap().to_vec(), d);
    let d = get_set_resp();
    assert_eq!(PacketSetResp::from_bytes(&d).unwrap().to_vec(), d);
}

#[test]
fn built_packets_decode_to_themselves() {
    let mut p = PacketIdentResp::new(init_mac_by_array(DEVICE), init_mac_by_array(HOST));
    p.append_block_common(
        OptionAndSubValue::NameOfStation(BytesWrap::from_vec(b"abc".to_vec())),
        BlockInfo::UnSupport([0x12, 0x34]),
    );
    p.append_block_ip(ip(), IpBlockInfo::IpSetByDhcpConflict);
    p.append_block_common(OptionAndSubValue::DeviceRole(1, 0), BlockInfo::Reserved);
    assert_eq!(PacketIdentResp::from_bytes(&p.to_vec()).unwrap(), p);

    let mut q = PacketSetReq::new(
        init_mac_by_array(HOST),
        init_mac_by_array(DEVICE),
        ip().to_option(),
        BlockQualifier::SavePermanent,
    );
    q.append_block_set(
        OptionAndSubValue::NameOfStation(BytesWrap::from_vec(b"plc-1".to_vec())),
        BlockQualifier::UseTemporary,
    );
    let back = PacketSetReq::from_bytes(&q.to_vec()).unwrap();
    assert_eq!(back, q);
    assert_eq!(back.blocks().len(), 3);
    assert!(matches!(back.blocks()[0], Block::SetValue(_)));
    assert!(matches!(back.blocks()[2], Block::Padding(_)));
}

#[test]
fn odd_blocks_are_followed_by_one_zero_byte() {
    let mut p = PacketGetResp::new(init_mac_by_array(DEVICE), init_mac_by_array(HOST));
    p.append_block_common(
        OptionAndSubValue::NameOfStation(BytesWrap::from_vec(b"abcde".to_vec())),
        BlockInfo::Reserved,
    );
    p.append_block_resp(OptionAndSub::IpAddr, BlockError::NoError);
    assert_eq!(p.header().payload_len, 12 + 8);
    let bytes = p.to_vec();
    assert_eq!(bytes[26 + 11], 0);
    assert_eq!(&bytes[26 + 12..26 + 14], &[0x05, 0x04]);
    assert_eq!(bytes[26 + 19], 0);
    assert_eq!(p.blocks().len(), 4);
}

#[test]
fn header_rejects_other_ethertype() {
    let mut d = get_get_req();
    d[12] = 0x08;
    d[13] = 0x00;
    assert_eq!(DcpHead::decode(&d), Err(DcpError::NotProfinet));
    assert_eq!(PacketGetReq::from_bytes(&d), Err(DcpError::NotProfinet));
}

#[test]
fn header_rejects_short_payload() {
    let d = get_get_resp();
    assert_eq!(DcpHead::decode(&d[..d.len() - 1]), Err(DcpError::Truncated));
    assert_eq!(DcpHead::decode(&d[..20]), Err(DcpError::Truncated));
}

#[test]
fn header_decodes_fields() {
    let d = get_ident_req();
    let h = DcpHead::decode(&d).unwrap();
    assert_eq!(h.destination, MacAddr::new(0x01, 0x0e, 0xcf, 0x00, 0x00, 0x00));
    assert_eq!(h.source, init_mac_by_array(HOST));
    assert_eq!(h.ty, PnDcpTy::IdentReq);
    assert_eq!(h.xid, [0x01, 0x00, 0x00, 0x2a]);
    assert_eq!(h.reserved_or_delay, [0x00, 0x80]);
    assert_eq!(h.payload_len, 16);
}

#[test]
fn scenario_ident_req_bytes() {
    let mut p = PacketIdentReq::new(init_mac_by_array(HOST));
    p.set_xid([0x01, 0x00, 0x00, 0x2a]);
    p.set_reserved_or_delay([0x00, 0x80]);
    p.append_block_by_option(OptionAndSubValue::ManufacturerSpecific(BytesWrap::from_vec(
        b"S7-200 SMART".to_vec(),
    )));
    assert_eq!(p.to_vec(), get_ident_req());
    assert_eq!(PacketIdentReq::from_bytes(&p.to_vec()).unwrap(), p);
}

#[test]
fn scenario_get_list_has_no_padding() {
    let p = PacketGetReq::from_bytes(&get_get_req()).unwrap();
    assert_eq!(p.blocks().len(), 2);
    assert_eq!(p.options(), vec![OptionAndSub::IpAddr, OptionAndSub::DHCP(0x3d)]);
}

#[test]
fn unknown_message_type_and_wrong_kind() {
    let mut d = get_get_req();
    d[15] = 0x00;
    assert_eq!(DcpHead::decode(&d), Err(DcpError::UnknownMessageType));
    assert_eq!(PacketGetResp::from_bytes(&get_get_req()), Err(DcpError::WrongKind));
    let mut hello = get_get_req();
    hello[15] = 0xfc;
    hello[16] = 0x06;
    assert_eq!(DcpPacket::from_bytes(&hello), Err(DcpError::WrongKind));
}

#[test]
fn unsupported_option_and_bad_padding() {
    let alias = frame(&DEVICE, &HOST, [0xfe, 0xfe, 0x05, 0x00], [0; 4], [0; 2], &[0x02, 0x06, 0x00, 0x02, 0x61, 0x62]);
    assert_eq!(PacketIdentReq::from_bytes(&alias), Err(DcpError::UnsupportedOption));
    let mut d = get_set_resp();
    let last = d.len() - 1;
    d[last] = 0x01;
    assert_eq!(PacketSetResp::from_bytes(&d), Err(DcpError::BadPadding));
    let short = frame(&HOST, &DEVICE, [0xfe, 0xfd, 0x03, 0x01], [0; 4], [0; 2], &[0x02, 0x02, 0x00, 0x09, 0x00]);
    assert_eq!(PacketGetResp::from_bytes(&short), Err(DcpError::Truncated));
    let bad_len = frame(&HOST, &DEVICE, [0xfe, 0xfd, 0x03, 0x01], [0; 4], [0; 2], &[0x02, 0x04, 0x00, 0x03, 0x00, 0x00, 0x01, 0x00]);
    assert_eq!(PacketGetResp::from_bytes(&bad_len), Err(DcpError::Truncated));
}

#[test]
fn value_decoding() {
    let v = OptionAndSubValue::init_by_ty(OptionAndSub::DeviceOptions, BytesWrap::from_vec(vec![2, 1, 3, 0x3d])).unwrap();
    assert_eq!(v, OptionAndSubValue::DeviceOptions(vec![OptionAndSub::ManufacturerSpecific, OptionAndSub::DHCP(0x3d)]));
    assert_eq!(v.payload_size(), 4);
    let odd = OptionAndSubValue::init_by_ty(OptionAndSub::DeviceOptions, BytesWrap::from_vec(vec![2, 1, 3]));
    assert_eq!(odd, Err(DcpError::Truncated));
    let r = OptionAndSubValue::init_by_ty(OptionAndSub::Response, BytesWrap::from_vec(vec![1, 2, 9])).unwrap();
    assert_eq!(r, OptionAndSubValue::Response(pn_dcp::options::Response(OptionAndSub::IpAddr, BlockError::UnSupport(9))));
    let mut out = Vec::new();
    r.append_value_to_data(&mut out);
    assert_eq!(out, vec![1, 2, 9]);
    assert_eq!(
        OptionAndSubValue::init_by_ty(OptionAndSub::AliasName, BytesWrap::from_vec(vec![])),
        Err(DcpError::UnsupportedOption)
    );
}

#[test]
fn byte_cursor_ranges() {
    let b = BytesWrap::from_vec(vec![1, 2, 3, 4, 5]);
    assert_eq!(b.slice(1, 3).unwrap().as_bytes(), &[2, 3]);
    assert_eq!(b.slice(3, 2), Err(DcpError::RangeError));
    assert_eq!(b.slice(0, 6), Err(DcpError::RangeError));
    assert_eq!(b.slice_from(4).unwrap().to_vec(), vec![5]);
    let mut c = b.clone();
    let tail = c.split_off(2).unwrap();
    assert_eq!(c.as_bytes(), &[1, 2]);
    assert_eq!(tail.as_bytes(), &[3, 4, 5]);
    assert_eq!(c.split_off(3), Err(DcpError::RangeError));
    assert_eq!(b.len(), 5);
}

#[test]
fn small_fields_map_both_ways() {
    assert_eq!(BlockQualifier::from_u8_array([0, 1]), BlockQualifier::SavePermanent);
    assert_eq!(BlockQualifier::SavePermanent.to_u8_array(), [0, 1]);
    assert_eq!(IpBlockInfo::from_u8_array([0, 0x81]), IpBlockInfo::IpSetConflict);
    assert_eq!(IpBlockInfo::from_u8_array([1, 0x81]), IpBlockInfo::UnSupport([1, 0x81]));
    assert_eq!(BlockInfo::from_u8_array([0, 0]), BlockInfo::Reserved);
    assert_eq!(BlockError::from_u8(6), BlockError::InOoperationSETNotPossible);
    assert_eq!(BlockError::SuboptionNotSet.to_u8(), 3);
    assert_eq!(PnDcpTy::SetRespUnsup.to_u8_array(), [0xfe, 0xfd, 0x04, 0x05]);
    assert_eq!(PnDcpTy::from_u8_array([0xfe, 0xfc, 0x06, 0x01]), Ok(PnDcpTy::HelloRespSuc));
    assert_eq!(IpBlockInfo::default(), IpBlockInfo::IpSet);
}

#[test]
fn byte_helpers() {
    assert_eq!(pn_dcp::comm::u16_to_u8s(0x8892), [0x88, 0x92]);
    assert_eq!(pn_dcp::comm::u32_to_u8s(0xc0a8c7f5), [0xc0, 0xa8, 0xc7, 0xf5]);
    assert_eq!(pn_dcp::comm::to_u16(0x12, 0x34), 0x1234);
    let mut v = vec![9];
    pn_dcp::comm::slice_copy_to_vec(&mut v, &[1, 2]);
    pn_dcp::comm::group_copy_to_vec(&mut v, &(3, 4));
    assert_eq!(v, vec![9, 1, 2, 3, 4]);
}

#[test]
fn from_req_answers_the_sender() {
    let req = PacketIdentReq::from_bytes(&get_ident_req()).unwrap();
    let resp = PacketIdentResp::from_req(init_mac_by_array(DEVICE), &req);
    assert_eq!(resp.header().destination, init_mac_by_array(HOST));
    assert_eq!(resp.header().xid, [0x01, 0x00, 0x00, 0x2a]);
    assert_eq!(resp.header().ty, PnDcpTy::IdentRespSuc);
}

#[test]
fn manufacturer_lookup_and_value_encoding() {
    let req = PacketIdentReq::from_bytes(&get_ident_req()).unwrap();
    let m = req.get_manufacturer_pecific_block().unwrap();
    assert_eq!(m.to_vec(), b"S7-200 SMART".to_vec());
    let empty = PacketIdentReq::new(init_mac_by_array(HOST));
    assert!(empty.get_manufacturer_pecific_block().is_none());

    let mut out = Vec::new();
    OptionAndSubValue::DeviceRole(2, 0).encode(&mut out);
    assert_eq!(out, vec![0x02, 0x04, 0x00, 0x02, 0x02, 0x00]);
    let ip = InnerIpAddr::new(BytesWrap::from_vec(IP.to_vec())).unwrap();
    assert_eq!(ip, InnerIpAddr([192, 168, 199, 245], [255, 255, 255, 0], [192, 168, 199, 254]));
    assert_eq!(InnerIpAddr::new(BytesWrap::from_vec(vec![1, 2, 3])), Err(DcpError::RangeError));
}

#[test]
fn block_views_read_and_write_fields() {
    let bytes = [0x02, 0x02, 0x00, 0x05, 0x00, 0x01, b'a', b'b', b'c'];
    assert!(BlockPacket::new(&bytes[..5]).is_none());
    let b = BlockPacket::new(&bytes).unwrap();
    assert_eq!(BlockPacket::minimum_packet_size(), 6);
    assert_eq!((b.get_option(), b.get_sub_option(), b.get_len(), b.get_status()), (2, 2, 5, 1));
    assert_eq!(b.packet_size(), 9);
    assert_eq!(b.to_immutable().packet(), &bytes);
    assert_eq!(BlockPacket::owned(bytes.to_vec()).unwrap().consume_to_immutable().get_len(), 5);

    let mut m = MutableBlockPacket::owned(bytes.to_vec()).unwrap();
    m.set_option(1);
    m.set_sub_option(2);
    m.set_len(6);
    m.set_status(0x0102);
    m.set_data(&[b'x', b'y']);
    assert_eq!(m.packet(), &[1, 2, 0, 6, 1, 2, b'x', b'y', b'c']);
    assert_eq!((m.get_option(), m.get_sub_option(), m.get_len(), m.get_status()), (1, 2, 6, 0x0102));
    assert_eq!(m.to_immutable().get_len(), 6);
    assert_eq!(MutableBlockPacket::new(&bytes).unwrap().consume_to_immutable().packet(), &bytes);
    assert_eq!(MutableBlockPacket::minimum_packet_size(), 6);

    let frame = get_get_req();
    let e = EthernetPacket::new(&frame).unwrap();
    assert_eq!(e.get_destination(), init_mac_by_array(DEVICE));
    assert_eq!(e.get_source(), init_mac_by_array(HOST));
    assert_eq!(e.get_ethertype(), 0x8892);
    assert_eq!(e.packet_size(), frame.len());
    assert!(EthernetPacket::new(&frame[..13]).is_none());
    assert_eq!(EthernetPacket::minimum_packet_size(), 14);
    let mut me = MutableEthernetPacket::owned(frame.clone()).unwrap();
    me.set_destination(init_mac_by_array(HOST));
    me.set_source(init_mac_by_array(DEVICE));
    me.set_ethertype(0x0800);
    me.set_payload(&[0xaa, 0xbb]);
    assert_eq!(me.get_destination(), init_mac_by_array(HOST));
    assert_eq!(me.get_source(), init_mac_by_array(DEVICE));
    assert_eq!(me.get_ethertype(), 0x0800);
    assert_eq!(&me.packet()[14..16], &[0xaa, 0xbb]);
    assert_eq!(me.packet_size(), frame.len());
    assert_eq!(me.to_immutable().get_ethertype(), 0x0800);
    assert_eq!(MutableEthernetPacket::new(&frame).unwrap().consume_to_immutable().get_ethertype(), 0x8892);
    assert_eq!(MutableEthernetPacket::minimum_packet_size(), 14);
    assert!(EthernetPacket::owned(frame).unwrap().to_immutable().consume_to_immutable().packet_size() > 14);
}

#[test]
fn loose_scan_finds_blocks_and_padding() {
    let data = get_ident_resp();
    let blocks = Blocks::new(get_blocks(&data).unwrap());
    assert_eq!(blocks.len(), 7);
    assert!(blocks.get(0).unwrap().is_block());
    assert!(blocks.get(3).unwrap().is_padding());
    assert!(blocks.get(7).is_none());
    let mut more = Blocks::new(&[]);
    more.append_block(pn_dcp::view::BlockPacket::new(&[0x02, 0x02, 0x00, 0x03, 0, 0, b'a']).unwrap());
    assert_eq!(more.len(), 2);
    let refs = OptionSuboptions::new(&[1, 2, 3]);
    assert_eq!(refs.len(), 1);
    assert!(refs.get(1).is_none());
    let len = pn_dcp::block::Len::from_bytes(&[0x01, 0x02]).unwrap();
    assert_eq!(len.0, 0x0102);
    assert!(pn_dcp::block::Len::from_bytes(&[1]).is_err());
}

#[test]
fn fixed_size_values_read_their_first_bytes() {
    let mut body = IP.to_vec();
    body.push(0x99);
    let v = OptionAndSubValue::init_by_ty(OptionAndSub::IpAddr, BytesWrap::from_vec(body)).unwrap();
    assert_eq!(v, OptionAndSubValue::IpAddr(ip()));
    assert_eq!(v.payload_size(), 12);
    let short = OptionAndSubValue::init_by_ty(OptionAndSub::IpAddr, BytesWrap::from_vec(IP[..11].to_vec()));
    assert_eq!(short, Err(DcpError::Truncated));
    let id = OptionAndSubValue::init_by_ty(OptionAndSub::DeviceId, BytesWrap::from_vec(vec![0, 0x2a, 0, 1, 7])).unwrap();
    assert_eq!(id, OptionAndSubValue::DeviceId([0, 0x2a], [0, 1]));
    let role = OptionAndSubValue::init_by_ty(OptionAndSub::DeviceRole, BytesWrap::from_vec(vec![2, 0, 5])).unwrap();
    assert_eq!(role, OptionAndSubValue::DeviceRole(2, 0));
    assert_eq!(
        OptionAndSubValue::init_by_ty(OptionAndSub::DeviceId, BytesWrap::from_vec(vec![0, 1, 2])),
        Err(DcpError::Truncated)
    );
}

#[test]
fn overlong_length_field_is_refused() {
    let mut blocks = vec![0x01, 0x02, 0x00, 0x0f, 0x00, 0x01];
    blocks.extend_from_slice(&IP);
    blocks.extend_from_slice(&[0x00, 0x00]);
    let d = frame(&HOST, &DEVICE, [0xfe, 0xfd, 0x03, 0x01], [0; 4], [0; 2], &blocks);
    assert_eq!(PacketGetResp::from_bytes(&d), Err(DcpError::LengthMismatch));
    let resp = frame(&HOST, &DEVICE, [0xfe, 0xfd, 0x04, 0x01], [0; 4], [0; 2], &[0x05, 0x04, 0x00, 0x04, 0x01, 0x02, 0x00, 0x00]);
    assert_eq!(PacketSetResp::from_bytes(&resp), Err(DcpError::LengthMismatch));
}

#[test]
fn responses_hold_any_response_shape() {
    let mut p = PacketIdentResp::new(init_mac_by_array(DEVICE), init_mac_by_array(HOST));
    p.append_block_resp(OptionAndSub::NameOfStation, BlockError::SuboptionNotSet);
    p.append_block_ip(ip(), IpBlockInfo::IpSet);
    let back = PacketIdentResp::from_bytes(&p.to_vec()).unwrap();
    assert_eq!(back, p);
    assert_eq!(back.block_resps(), vec![BlockResp(OptionAndSub::NameOfStation, BlockError::SuboptionNotSet)]);

    let mut q = PacketSetResp::new(init_mac_by_array(DEVICE), init_mac_by_array(HOST), OptionAndSub::IpAddr, BlockError::NoError);
    q.append_block_common(OptionAndSubValue::DeviceRole(1, 0), BlockInfo::Reserved);
    let back = PacketSetResp::from_bytes(&q.to_vec()).unwrap();
    assert_eq!(back, q);
    assert_eq!(back.block_commons(), vec![BlockCommon::new(OptionAndSubValue::DeviceRole(1, 0))]);
}

#[test]
fn loose_scan_padding_rule() {
    let data = [0x02, 0x02, 0x00, 0x03, 0, 0, b'a', 0xee, 0x02, 0x04, 0x00, 0x02, 0, 0];
    let blocks = Blocks::new(&data);
    assert_eq!(blocks.len(), 3);
    assert!(blocks.get(0).unwrap().is_block());
    assert!(blocks.get(1).unwrap().is_padding());
    assert!(blocks.get(2).unwrap().is_block());
    let end = Blocks::new(&data[..7]);
    assert_eq!(end.len(), 1);
}
