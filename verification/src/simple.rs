use vstd::prelude::*;

use crate::catalog::{with_id, NodeCatalog};
use crate::meter::Meter;
use crate::node::{WingNodeData, WingNodeDef};
use crate::wire::response_view;
use crate::WingResponse;

verus! {

/// A message from the console, with a node value named by its path where the path is
/// known.
#[derive(Debug)]
pub enum WingResponseSimple {
    RequestEnd,
    NodeDef(WingNodeDef),
    NodeData(i32, WingNodeData),
    NodeDataSimple(String, WingNodeData),
}

/// The kinds of meter that a meter subscription can name by word.
#[derive(Copy, Clone, PartialEq, Eq, Debug, Structural)]
pub enum MeterKind {
    Channel,
    Mix,
    Aux,
    Main,
    Matrix,
    Other,
}

/// The meter that a kind and an index name: mixes and auxes are buses, and a kind that is
/// not known names channel 1.
pub open spec fn meter_of_kind(kind: MeterKind, idx: u8) -> Meter {
    match kind {
        MeterKind::Channel => Meter::Channel(idx),
        MeterKind::Mix => Meter::Bus(idx),
        MeterKind::Aux => Meter::Bus(idx),
        MeterKind::Main => Meter::Main(idx),
        MeterKind::Matrix => Meter::Matrix(idx),
        MeterKind::Other => Meter::Channel(1),
    }
}

pub fn meter_for(kind: MeterKind, idx: u8) -> (m: Meter)
    ensures
        m == meter_of_kind(kind, idx),
{
    match kind {
        MeterKind::Channel => Meter::Channel(idx),
        MeterKind::Mix => Meter::Bus(idx),
        MeterKind::Aux => Meter::Bus(idx),
        MeterKind::Main => Meter::Main(idx),
        MeterKind::Matrix => Meter::Matrix(idx),
        MeterKind::Other => Meter::Channel(1),
    }
}

/// What the simple reader passes on of a message: a node value whose id exactly one path
/// of the catalog has, named by that path; nothing else (other values, and other messages,
/// are passed over).
pub fn simplify_response(resp: WingResponse, catalog: &NodeCatalog) -> (r: Option<WingResponseSimple>)
    ensures
        match r {
            Some(WingResponseSimple::NodeDataSimple(name, data)) => response_view(resp) matches crate::wire::ResponseView::NodeData(id, d)
                && d == data@ && with_id(catalog@, id).len() == 1 && name@ == with_id(catalog@, id)[0].0,
            Some(_) => false,
            None => match response_view(resp) {
                crate::wire::ResponseView::NodeData(id, _) => with_id(catalog@, id).len() != 1,
                _ => true,
            },
        },
{
    match resp {
        WingResponse::NodeData(id, data) => match catalog.id_to_defs(id) {
            Some(defs) => {
                if defs.len() == 1 {
                    let mut defs = defs;
                    let (name, _def) = defs.remove(0);
                    Some(WingResponseSimple::NodeDataSimple(name, data))
                } else {
                    None
                }
            },
            None => None,
        },
        _ => None,
    }
}

/// The value that a message carries for property `prop_id`: the data of a node value of
/// that property; nothing for another property's value or for any other message.
pub fn property_update(resp: WingResponse, prop_id: i32) -> (r: Option<WingNodeData>)
    ensures
        match r {
            Some(d) => resp matches WingResponse::NodeData(id, data) && id == prop_id && d == data,
            None => !(resp matches WingResponse::NodeData(id, _) && id == prop_id),
        },
{
    match resp {
        WingResponse::NodeData(id, data) => if id == prop_id {
            Some(data)
        } else {
            None
        },
        _ => None,
    }
}

} // verus!
