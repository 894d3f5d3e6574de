use vstd::prelude::*;

verus! {

/// Direction of a register access.
#[derive(Clone, Copy, Debug, PartialEq, Eq, Structural)]
pub enum MdioType {
    /// Register write.
    Send,
    /// Register read.
    Receive,
}

/// The fields of one frame header. Only the low five bits of each address
/// take part in the encoding.
#[derive(Clone, Copy, Debug, PartialEq, Eq, Structural)]
pub struct MdioHeader {
    pub mdio_type: MdioType,
    pub phy_address: u16,
    pub reg_address: u16,
}

/// The two-bit operation code: `01` for a write, `10` for a read.
pub open spec fn opcode(t: MdioType) -> int {
    match t {
        MdioType::Send => 1,
        MdioType::Receive => 2,
    }
}

/// The two turnaround bits: `10` for a write, `00` for a read.
pub open spec fn turnaround(t: MdioType) -> int {
    match t {
        MdioType::Send => 2,
        MdioType::Receive => 0,
    }
}

/// The 16-bit header value, field by field from the most significant end:
/// start `01` (bits 15-14), operation code (13-12), PHY address (11-7),
/// register address (6-2), turnaround (1-0).
pub open spec fn frame_word(t: MdioType, phy: u16, reg: u16) -> int {
    0x4000 + opcode(t) * 0x1000 + (phy % 32) * 0x80 + (reg % 32) * 4 + turnaround(t)
}

/// The header value as two bytes, most significant first.
pub open spec fn frame_bytes(t: MdioType, phy: u16, reg: u16) -> Seq<u8> {
    let w = frame_word(t, phy, reg);
    seq![(w / 256) as u8, (w % 256) as u8]
}

proof fn lemma_pack(op: u16, phy: u16, reg: u16, ta: u16, out: u16)
    by (bit_vector)
    requires
        op <= 3,
        ta <= 3,
        out == 0x4000u16 | (op << 12u16) | ((phy & 31u16) << 7u16) | ((reg & 31u16) << 2u16) | ta,
    ensures
        out == 0x4000 + op * 0x1000 + (phy % 32) * 0x80 + (reg % 32) * 4 + ta,
        (out >> 8u16) as u8 == out / 256,
        (out & 0xffu16) as u8 == out % 256,
{
}

/// Packs a header into its two wire bytes.
pub fn to_buffer(header: MdioHeader) -> (r: [u8; 2])
    ensures
        r@ == frame_bytes(header.mdio_type, header.phy_address, header.reg_address),
{
    let op: u16 = match header.mdio_type {
        MdioType::Send => 0b01,
        MdioType::Receive => 0b10,
    };
    let ta: u16 = match header.mdio_type {
        MdioType::Send => 0b10,
        MdioType::Receive => 0b00,
    };
    let out: u16 = 0x4000u16 | (op << 12u16) | ((header.phy_address & 31u16) << 7u16) | ((
    header.reg_address & 31u16) << 2u16) | ta;
    proof {
        lemma_pack(op, header.phy_address, header.reg_address, ta, out);
    }
    let r = [(out >> 8u16) as u8, (out & 0xffu16) as u8];
    assert(r@ =~= frame_bytes(header.mdio_type, header.phy_address, header.reg_address));
    r
}

/// Every header opens with the start marker `01`: the top two bits of its
/// first byte are `01`, whatever the direction and addresses.
pub proof fn lemma_start_bits(t: MdioType, phy: u16, reg: u16)
    ensures
        frame_bytes(t, phy, reg)[0] / 64 == 1,
        frame_word(t, phy, reg) / 0x4000 == 1,
{
}

/// A write header and a read header for the same PHY and register differ
/// only in the operation code (bits 13-12) and the turnaround bits (1-0):
/// the start marker and both address fields (bits 11-2) agree.
pub proof fn lemma_direction_bits(phy: u16, reg: u16)
    ensures
        ({
            let s = frame_word(MdioType::Send, phy, reg);
            let r = frame_word(MdioType::Receive, phy, reg);
            &&& s / 0x4000 == r / 0x4000
            &&& (s / 4) % 1024 == (r / 4) % 1024
            &&& (s / 0x1000) % 4 == 1
            &&& (r / 0x1000) % 4 == 2
            &&& s % 4 == 2
            &&& r % 4 == 0
        }),
{
}

} // verus!
