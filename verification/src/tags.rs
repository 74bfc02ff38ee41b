//! The four-character tags of the records and subrecords a plugin holds,
//! as byte sequences and as the arrays the writer emits.

use vstd::prelude::*;
use crate::record::tag;

verus! {

/// The tag `TES4`.
pub open spec fn tes4_tag() -> Seq<u8> {
    seq![84u8, 69, 83, 52]
}

/// The tag `HEDR`.
pub open spec fn hedr_tag() -> Seq<u8> {
    seq![72u8, 69, 68, 82]
}

/// The tag `CNAM`.
pub open spec fn cnam_tag() -> Seq<u8> {
    seq![67u8, 78, 65, 77]
}

/// The tag `TXST`.
pub open spec fn txst_tag() -> Seq<u8> {
    seq![84u8, 88, 83, 84]
}

/// The tag `EDID`.
pub open spec fn edid_tag() -> Seq<u8> {
    seq![69u8, 68, 73, 68]
}

/// The tag `TX00`.
pub open spec fn tx00_tag() -> Seq<u8> {
    seq![84u8, 88, 48, 48]
}

/// The tag `TX01`.
pub open spec fn tx01_tag() -> Seq<u8> {
    seq![84u8, 88, 48, 49]
}

/// The tag `STAT`.
pub open spec fn stat_tag() -> Seq<u8> {
    seq![83u8, 84, 65, 84]
}

/// The tag `MODL`.
pub open spec fn modl_tag() -> Seq<u8> {
    seq![77u8, 79, 68, 76]
}

/// The tag `DOOR`.
pub open spec fn door_tag() -> Seq<u8> {
    seq![68u8, 79, 79, 82]
}

/// The tag `FNAM`.
pub open spec fn fnam_tag() -> Seq<u8> {
    seq![70u8, 78, 65, 77]
}

/// The tag `LTEX`.
pub open spec fn ltex_tag() -> Seq<u8> {
    seq![76u8, 84, 69, 88]
}

/// The tag `TNAM`.
pub open spec fn tnam_tag() -> Seq<u8> {
    seq![84u8, 78, 65, 77]
}

/// The tag `HNAM`.
pub open spec fn hnam_tag() -> Seq<u8> {
    seq![72u8, 78, 65, 77]
}

/// The tag `WRLD`.
pub open spec fn wrld_tag() -> Seq<u8> {
    seq![87u8, 82, 76, 68]
}

/// The tag `CELL`.
pub open spec fn cell_tag() -> Seq<u8> {
    seq![67u8, 69, 76, 76]
}

/// The tag `XCLC`.
pub open spec fn xclc_tag() -> Seq<u8> {
    seq![88u8, 67, 76, 67]
}

/// The tag `FULL`.
pub open spec fn full_tag() -> Seq<u8> {
    seq![70u8, 85, 76, 76]
}

/// The tag `DATA`.
pub open spec fn data_tag() -> Seq<u8> {
    seq![68u8, 65, 84, 65]
}

/// The tag `LAND`.
pub open spec fn land_tag() -> Seq<u8> {
    seq![76u8, 65, 78, 68]
}

/// The tag `VHGT`.
pub open spec fn vhgt_tag() -> Seq<u8> {
    seq![86u8, 72, 71, 84]
}

/// The tag `BTXT`.
pub open spec fn btxt_tag() -> Seq<u8> {
    seq![66u8, 84, 88, 84]
}

/// The tag `REFR`.
pub open spec fn refr_tag() -> Seq<u8> {
    seq![82u8, 69, 70, 82]
}

/// The tag `NAME`.
pub open spec fn name_tag() -> Seq<u8> {
    seq![78u8, 65, 77, 69]
}

/// The tag `XTEL`.
pub open spec fn xtel_tag() -> Seq<u8> {
    seq![88u8, 84, 69, 76]
}

/// The tag `TES4`.
pub fn tag_tes4() -> (t: [u8; 4])
    ensures
        t@ == tes4_tag(),
{
    tag(84, 69, 83, 52)
}

/// The tag `HEDR`.
pub fn tag_hedr() -> (t: [u8; 4])
    ensures
        t@ == hedr_tag(),
{
    tag(72, 69, 68, 82)
}

/// The tag `CNAM`.
pub fn tag_cnam() -> (t: [u8; 4])
    ensures
        t@ == cnam_tag(),
{
    tag(67, 78, 65, 77)
}

/// The tag `TXST`.
pub fn tag_txst() -> (t: [u8; 4])
    ensures
        t@ == txst_tag(),
{
    tag(84, 88, 83, 84)
}

/// The tag `EDID`.
pub fn tag_edid() -> (t: [u8; 4])
    ensures
        t@ == edid_tag(),
{
    tag(69, 68, 73, 68)
}

/// The tag `TX00`.
pub fn tag_tx00() -> (t: [u8; 4])
    ensures
        t@ == tx00_tag(),
{
    tag(84, 88, 48, 48)
}

/// The tag `TX01`.
pub fn tag_tx01() -> (t: [u8; 4])
    ensures
        t@ == tx01_tag(),
{
    tag(84, 88, 48, 49)
}

/// The tag `STAT`.
pub fn tag_stat() -> (t: [u8; 4])
    ensures
        t@ == stat_tag(),
{
    tag(83, 84, 65, 84)
}

/// The tag `MODL`.
pub fn tag_modl() -> (t: [u8; 4])
    ensures
        t@ == modl_tag(),
{
    tag(77, 79, 68, 76)
}

/// The tag `DOOR`.
pub fn tag_door() -> (t: [u8; 4])
    ensures
        t@ == door_tag(),
{
    tag(68, 79, 79, 82)
}

/// The tag `FNAM`.
pub fn tag_fnam() -> (t: [u8; 4])
    ensures
        t@ == fnam_tag(),
{
    tag(70, 78, 65, 77)
}

/// The tag `LTEX`.
pub fn tag_ltex() -> (t: [u8; 4])
    ensures
        t@ == ltex_tag(),
{
    tag(76, 84, 69, 88)
}

/// The tag `TNAM`.
pub fn tag_tnam() -> (t: [u8; 4])
    ensures
        t@ == tnam_tag(),
{
    tag(84, 78, 65, 77)
}

/// The tag `HNAM`.
pub fn tag_hnam() -> (t: [u8; 4])
    ensures
        t@ == hnam_tag(),
{
    tag(72, 78, 65, 77)
}

/// The tag `WRLD`.
pub fn tag_wrld() -> (t: [u8; 4])
    ensures
        t@ == wrld_tag(),
{
    tag(87, 82, 76, 68)
}

/// The tag `CELL`.
pub fn tag_cell() -> (t: [u8; 4])
    ensures
        t@ == cell_tag(),
{
    tag(67, 69, 76, 76)
}

/// The tag `XCLC`.
pub fn tag_xclc() -> (t: [u8; 4])
    ensures
        t@ == xclc_tag(),
{
    tag(88, 67, 76, 67)
}

/// The tag `FULL`.
pub fn tag_full() -> (t: [u8; 4])
    ensures
        t@ == full_tag(),
{
    tag(70, 85, 76, 76)
}

/// The tag `DATA`.
pub fn tag_data() -> (t: [u8; 4])
    ensures
        t@ == data_tag(),
{
    tag(68, 65, 84, 65)
}

/// The tag `LAND`.
pub fn tag_land() -> (t: [u8; 4])
    ensures
        t@ == land_tag(),
{
    tag(76, 65, 78, 68)
}

/// The tag `VHGT`.
pub fn tag_vhgt() -> (t: [u8; 4])
    ensures
        t@ == vhgt_tag(),
{
    tag(86, 72, 71, 84)
}

/// The tag `BTXT`.
pub fn tag_btxt() -> (t: [u8; 4])
    ensures
        t@ == btxt_tag(),
{
    tag(66, 84, 88, 84)
}

/// The tag `REFR`.
pub fn tag_refr() -> (t: [u8; 4])
    ensures
        t@ == refr_tag(),
{
    tag(82, 69, 70, 82)
}

/// The tag `NAME`.
pub fn tag_name() -> (t: [u8; 4])
    ensures
        t@ == name_tag(),
{
    tag(78, 65, 77, 69)
}

/// The tag `XTEL`.
pub fn tag_xtel() -> (t: [u8; 4])
    ensures
        t@ == xtel_tag(),
{
    tag(88, 84, 69, 76)
}



} // verus!
