//! Walking the device-path region of a load option node by node.
//!
//! The region is a sequence of nodes, each carrying a type byte, a subtype
//! byte, a little-endian 16-bit length (header included, at least four) and
//! a payload.  The walk emits a human-readable label per recognized node,
//! stops at the first terminal node (type `0x7F`), and treats anything
//! outside the recognized table, or a length that cannot be right, as a
//! decode error — never as a reason to loop or read out of bounds.

use vstd::prelude::*;
use vstd::slice::{slice_subrange, slice_to_vec};
use vstd::string::StringExecFns;
use crate::error::BootError;
use crate::text::{c16_text, char16_to_string};
use crate::wire::{le16_at, read_le16};

verus! {

/// Mathematical content of one device-path node.
pub ghost struct NodeModel {
    pub node_type: u8,
    pub subtype: u8,
    pub length: u16,
    pub payload: Seq<u8>,
}

impl NodeModel {
    /// The node invariant: the declared length covers the header, and the
    /// payload is exactly the rest of it.
    pub open spec fn wf(self) -> bool {
        &&& self.length >= 4
        &&& self.payload.len() == self.length - 4
    }
}

/// One element of a device-path region.
#[derive(Debug)]
pub struct DevicePathNode {
    /// Node type byte.
    pub node_type: u8,
    /// Node subtype byte.
    pub subtype: u8,
    /// Declared node length in bytes, header included.
    pub length: u16,
    /// The `length - 4` bytes following the header.
    pub payload: Vec<u8>,
}

impl View for DevicePathNode {
    type V = NodeModel;

    open spec fn view(&self) -> NodeModel {
        NodeModel {
            node_type: self.node_type,
            subtype: self.subtype,
            length: self.length,
            payload: self.payload@,
        }
    }
}

/// The node that starts at offset `pos` of the region, or the fault that
/// stops the walk there: a header past the region's end, a length under
/// four, or a length running past the end.
pub open spec fn parse_node_spec(b: Seq<u8>, pos: int) -> Result<NodeModel, BootError> {
    if !(0 <= pos && pos + 4 <= b.len()) {
        Err(BootError::MalformedNodeLength)
    } else {
        let l = le16_at(b, pos + 2) as int;
        if l < 4 || pos + l > b.len() {
            Err(BootError::MalformedNodeLength)
        } else {
            Ok(
                NodeModel {
                    node_type: b[pos],
                    subtype: b[pos + 1],
                    length: le16_at(b, pos + 2),
                    payload: b.subrange(pos + 4, pos + l),
                },
            )
        }
    }
}

/// Reads the device-path node at offset `pos` of the region.
pub fn parse_device_path_node(b: &[u8], pos: usize) -> (r: Result<DevicePathNode, BootError>)
    ensures
        match r {
            Ok(n) => parse_node_spec(b@, pos as int) == Ok::<NodeModel, BootError>(n@) && n@.wf(),
            Err(e) => parse_node_spec(b@, pos as int) == Err::<NodeModel, BootError>(e),
        },
{
    let n = b.len();
    if n < 4 || pos > n - 4 {
        return Err(BootError::MalformedNodeLength);
    }
    let node_type = b[pos];
    let subtype = b[pos + 1];
    let length = read_le16(b, pos + 2);
    if length < 4 || (length as usize) > n - pos {
        return Err(BootError::MalformedNodeLength);
    }
    let payload = slice_to_vec(slice_subrange(b, pos + 4, pos + length as usize));
    Ok(DevicePathNode { node_type, subtype, length, payload })
}

/// What a node contributes to the walk: a label, nothing (a suppressed
/// subtype), or a decode error for a node outside the recognized table.
pub ghost enum NodeLabel {
    Text(Seq<char>),
    Suppressed,
    Unsupported,
}

/// Labels of the messaging node subtypes (type `0x03`); subtype 17 emits
/// nothing, and an unlisted subtype is unsupported.
pub open spec fn messaging_label(st: u8) -> NodeLabel {
    if st == 1 {
        NodeLabel::Text("ATAPI"@)
    } else if st == 2 {
        NodeLabel::Text("SCSI"@)
    } else if st == 3 || st == 21 {
        NodeLabel::Text("Fibre Channel"@)
    } else if st == 4 {
        NodeLabel::Text("1394"@)
    } else if st == 5 || st == 15 || st == 16 {
        NodeLabel::Text("USB"@)
    } else if st == 6 {
        NodeLabel::Text("I2O"@)
    } else if st == 9 || st == 11 || st == 12 || st == 13 || st == 20 || st == 28 || st == 31 {
        NodeLabel::Text("Network"@)
    } else if st == 10 {
        NodeLabel::Text("Vendor specific"@)
    } else if st == 17 {
        NodeLabel::Suppressed
    } else if st == 18 {
        NodeLabel::Text("SATA"@)
    } else if st == 19 {
        NodeLabel::Text("iSCSI"@)
    } else if st == 22 {
        NodeLabel::Text("SAS"@)
    } else if st == 23 {
        NodeLabel::Text("NVMe"@)
    } else if st == 24 {
        NodeLabel::Text("URI"@)
    } else if st == 25 {
        NodeLabel::Text("UFS"@)
    } else if st == 26 {
        NodeLabel::Text("SD Card"@)
    } else if st == 27 || st == 30 {
        NodeLabel::Text("Bluetooth"@)
    } else if st == 29 {
        NodeLabel::Text("eMMC"@)
    } else if st == 32 {
        NodeLabel::Text("NVDIMM"@)
    } else {
        NodeLabel::Unsupported
    }
}

/// The label of a non-terminal node.  A media node of subtype 4 shows the
/// UTF-16LE file path embedded at the start of its payload, verbatim.
pub open spec fn node_label(t: u8, st: u8, payload: Seq<u8>) -> NodeLabel {
    if t == 3 {
        messaging_label(st)
    } else if t == 4 {
        if st == 1 {
            NodeLabel::Text("Hard Drive"@)
        } else if st == 2 {
            NodeLabel::Text("CD-ROM"@)
        } else if st == 4 {
            NodeLabel::Text(c16_text(payload))
        } else if st == 6 || st == 7 {
            NodeLabel::Text("UEFI PI"@)
        } else {
            NodeLabel::Unsupported
        }
    } else if t == 5 {
        NodeLabel::Text("CSM"@)
    } else {
        NodeLabel::Unsupported
    }
}

/// Label of one node, as the walk shows it.
fn label_for(t: u8, st: u8, payload: &[u8]) -> (r: Result<Option<String>, BootError>)
    requires
        payload@.len() + 2 <= usize::MAX,
    ensures
        match node_label(t, st, payload@) {
            NodeLabel::Text(l) => r matches Ok(Some(s)) && s@ == l,
            NodeLabel::Suppressed => r matches Ok(o) && o is None,
            NodeLabel::Unsupported => r matches Err(e) && e == BootError::UnsupportedNode,
        },
{
    if t == 3 {
        match st {
            1 => Ok(Some(String::from_str("ATAPI"))),
            2 => Ok(Some(String::from_str("SCSI"))),
            3 | 21 => Ok(Some(String::from_str("Fibre Channel"))),
            4 => Ok(Some(String::from_str("1394"))),
            5 | 15 | 16 => Ok(Some(String::from_str("USB"))),
            6 => Ok(Some(String::from_str("I2O"))),
            9 | 11 | 12 | 13 | 20 | 28 | 31 => Ok(Some(String::from_str("Network"))),
            10 => Ok(Some(String::from_str("Vendor specific"))),
            17 => Ok(None),
            18 => Ok(Some(String::from_str("SATA"))),
            19 => Ok(Some(String::from_str("iSCSI"))),
            22 => Ok(Some(String::from_str("SAS"))),
            23 => Ok(Some(String::from_str("NVMe"))),
            24 => Ok(Some(String::from_str("URI"))),
            25 => Ok(Some(String::from_str("UFS"))),
            26 => Ok(Some(String::from_str("SD Card"))),
            27 | 30 => Ok(Some(String::from_str("Bluetooth"))),
            29 => Ok(Some(String::from_str("eMMC"))),
            32 => Ok(Some(String::from_str("NVDIMM"))),
            _ => Err(BootError::UnsupportedNode),
        }
    } else if t == 4 {
        match st {
            1 => Ok(Some(String::from_str("Hard Drive"))),
            2 => Ok(Some(String::from_str("CD-ROM"))),
            4 => {
                let (text, _) = char16_to_string(payload);
                Ok(Some(text))
            },
            6 | 7 => Ok(Some(String::from_str("UEFI PI"))),
            _ => Err(BootError::UnsupportedNode),
        }
    } else if t == 5 {
        Ok(Some(String::from_str("CSM")))
    } else {
        Err(BootError::UnsupportedNode)
    }
}

/// Mathematical content of a finished walk: the labels in order, and the
/// last file path a media node showed, if any.
pub ghost struct WalkOut {
    pub labels: Seq<Seq<char>>,
    pub final_file: Option<Seq<char>>,
}

/// What walking the region from offset `pos` yields: the labels up to the
/// first terminal node, or the first fault found.
pub open spec fn walk_from(b: Seq<u8>, pos: int) -> Result<WalkOut, BootError>
    decreases b.len() - pos,
{
    match parse_node_spec(b, pos) {
        Err(e) => Err(e),
        Ok(n) => {
            if n.node_type == 0x7f {
                Ok(WalkOut { labels: Seq::empty(), final_file: None::<Seq<char>> })
            } else {
                match node_label(n.node_type, n.subtype, n.payload) {
                    NodeLabel::Unsupported => Err(BootError::UnsupportedNode),
                    NodeLabel::Suppressed => walk_from(b, pos + n.length),
                    NodeLabel::Text(lab) => match walk_from(b, pos + n.length) {
                        Err(e) => Err(e),
                        Ok(w) => Ok(
                            WalkOut {
                                labels: seq![lab] + w.labels,
                                final_file: if n.node_type == 4 && n.subtype == 4 {
                                    if w.final_file is Some {
                                        w.final_file
                                    } else {
                                        Some(lab)
                                    }
                                } else {
                                    w.final_file
                                },
                            },
                        ),
                    },
                }
            }
        },
    }
}

/// The text of each string of a sequence.
pub open spec fn labels_view(v: Seq<String>) -> Seq<Seq<char>> {
    Seq::new(v.len(), |i: int| v[i]@)
}

/// The text of an optional string.
pub open spec fn opt_view(o: Option<String>) -> Option<Seq<char>> {
    match o {
        Some(s) => Some(s@),
        None => None,
    }
}

/// A finished walk over a device-path region.
#[derive(Debug)]
pub struct PathSummary {
    /// The emitted labels, in walk order.
    pub labels: Vec<String>,
    /// The last file path shown by a media node of subtype 4, if any.
    pub final_media_file: Option<String>,
}

impl View for PathSummary {
    type V = WalkOut;

    open spec fn view(&self) -> WalkOut {
        WalkOut { labels: labels_view(self.labels@), final_file: opt_view(self.final_media_file) }
    }
}

/// A walk result with earlier labels put back in front of it.
pub open spec fn prepend_walk(
    pre: Seq<Seq<char>>,
    ff: Option<Seq<char>>,
    r: Result<WalkOut, BootError>,
) -> Result<WalkOut, BootError> {
    match r {
        Err(e) => Err(e),
        Ok(w) => Ok(
            WalkOut {
                labels: pre + w.labels,
                final_file: if w.final_file is Some {
                    w.final_file
                } else {
                    ff
                },
            },
        ),
    }
}

/// Walks a whole device-path region, collecting the labels up to the first
/// terminal node.
pub fn walk_device_path(b: &[u8]) -> (r: Result<PathSummary, BootError>)
    ensures
        match r {
            Ok(p) => walk_from(b@, 0) == Ok::<WalkOut, BootError>(p@),
            Err(e) => walk_from(b@, 0) == Err::<WalkOut, BootError>(e),
        },
{
    let n = b.len();
    let mut labels: Vec<String> = Vec::new();
    let mut final_media_file: Option<String> = None;
    let mut pos: usize = 0;
    proof {
        assert(labels_view(labels@) =~= Seq::<Seq<char>>::empty());
        if walk_from(b@, 0) is Ok {
            assert(labels_view(labels@) + walk_from(b@, 0)->Ok_0.labels =~= walk_from(
                b@,
                0,
            )->Ok_0.labels);
        }
    }
    loop
        invariant
            pos <= n == b@.len(),
            prepend_walk(labels_view(labels@), opt_view(final_media_file), walk_from(b@, pos as int))
                == walk_from(b@, 0),
        decreases b@.len() - pos,
    {
        let ghost pre = labels_view(labels@);
        let ghost ff = opt_view(final_media_file);
        let node = match parse_device_path_node(b, pos) {
            Ok(node) => node,
            Err(e) => {
                return Err(e);
            },
        };
        if node.node_type == 0x7f {
            proof {
                assert(pre + Seq::<Seq<char>>::empty() =~= pre);
            }
            return Ok(PathSummary { labels, final_media_file });
        }
        match label_for(node.node_type, node.subtype, node.payload.as_slice()) {
            Err(e) => {
                return Err(e);
            },
            Ok(None) => {},
            Ok(Some(lab)) => {
                let ghost lv = lab@;
                if node.node_type == 4 && node.subtype == 4 {
                    final_media_file = Some(lab.clone());
                }
                labels.push(lab);
                proof {
                    assert(labels_view(labels@) =~= pre.push(lv));
                    let rest = walk_from(b@, pos + node@.length);
                    if rest is Ok {
                        assert(pre.push(lv) + rest->Ok_0.labels =~= pre + (seq![lv]
                            + rest->Ok_0.labels));
                    }
                }
            },
        }
        pos = pos + node.length as usize;
    }
}

/// Mirror of the walk that only says whether it stops at a terminal node.
pub open spec fn reaches_terminal(b: Seq<u8>, pos: int) -> bool
    decreases b.len() - pos,
{
    match parse_node_spec(b, pos) {
        Err(_) => false,
        Ok(n) => {
            if n.node_type == 0x7f {
                true
            } else {
                match node_label(n.node_type, n.subtype, n.payload) {
                    NodeLabel::Unsupported => false,
                    _ => reaches_terminal(b, pos + n.length),
                }
            }
        },
    }
}

/// Mirror of the walk that says whether every node met before stopping is
/// in the recognized table.
pub open spec fn nodes_recognized(b: Seq<u8>, pos: int) -> bool
    decreases b.len() - pos,
{
    match parse_node_spec(b, pos) {
        Err(_) => true,
        Ok(n) => {
            if n.node_type == 0x7f {
                true
            } else {
                match node_label(n.node_type, n.subtype, n.payload) {
                    NodeLabel::Unsupported => false,
                    _ => nodes_recognized(b, pos + n.length),
                }
            }
        },
    }
}

/// A walk that never reaches a terminal node ends in an error; it cannot
/// loop, since the walk is a total function of the region.
pub proof fn lemma_walk_without_terminal_errs(b: Seq<u8>, pos: int)
    requires
        !reaches_terminal(b, pos),
    ensures
        walk_from(b, pos) is Err,
    decreases b.len() - pos,
{
    match parse_node_spec(b, pos) {
        Err(_) => {},
        Ok(n) => {
            if n.node_type != 0x7f {
                match node_label(n.node_type, n.subtype, n.payload) {
                    NodeLabel::Unsupported => {},
                    _ => {
                        lemma_walk_without_terminal_errs(b, pos + n.length);
                    },
                }
            }
        },
    }
}

/// A region whose nodes are all recognized but which holds no terminal node
/// makes the walk report a malformed node length.
pub proof fn lemma_walk_without_terminal_malformed(b: Seq<u8>, pos: int)
    requires
        !reaches_terminal(b, pos),
        nodes_recognized(b, pos),
    ensures
        walk_from(b, pos) == Err::<WalkOut, BootError>(BootError::MalformedNodeLength),
    decreases b.len() - pos,
{
    match parse_node_spec(b, pos) {
        Err(_) => {},
        Ok(n) => {
            if n.node_type != 0x7f {
                match node_label(n.node_type, n.subtype, n.payload) {
                    NodeLabel::Unsupported => {},
                    _ => {
                        lemma_walk_without_terminal_malformed(b, pos + n.length);
                    },
                }
            }
        },
    }
}

} // verus!
