//! Register offsets, register bits and limits of the adapter.

use vstd::prelude::*;

verus! {

// Register offsets, in bytes from the start of the first memory region.
pub const E1000_CTRL: u32 = 0x0000;
pub const E1000_STATUS: u32 = 0x0008;
pub const E1000_EECD: u32 = 0x0010;
pub const E1000_MDIC: u32 = 0x0020;
pub const E1000_VET: u32 = 0x0038;
pub const E1000_ICR: u32 = 0x00C0;
pub const E1000_ITR: u32 = 0x00C4;
pub const E1000_ICS: u32 = 0x00C8;
pub const E1000_IMS: u32 = 0x00D0;
pub const E1000_IMC: u32 = 0x00D8;
pub const E1000_RCTL: u32 = 0x0100;
pub const E1000_TCTL: u32 = 0x0400;
pub const E1000_TIPG: u32 = 0x0410;
pub const E1000_PBA: u32 = 0x1000;
pub const E1000_RDBAL: u32 = 0x2800;
pub const E1000_RDBAH: u32 = 0x2804;
pub const E1000_RDLEN: u32 = 0x2808;
pub const E1000_RDH: u32 = 0x2810;
pub const E1000_RDT: u32 = 0x2818;
pub const E1000_RDTR: u32 = 0x2820;
pub const E1000_RADV: u32 = 0x282C;
pub const E1000_TDBAL: u32 = 0x3800;
pub const E1000_TDBAH: u32 = 0x3804;
pub const E1000_TDLEN: u32 = 0x3808;
pub const E1000_TDH: u32 = 0x3810;
pub const E1000_TDT: u32 = 0x3818;
pub const E1000_TIDV: u32 = 0x3820;
pub const E1000_TXDCTL: u32 = 0x3828;
pub const E1000_TADV: u32 = 0x382C;
pub const E1000_MTA: u32 = 0x5200;
pub const E1000_RA: u32 = 0x5400;
pub const E1000_MANC: u32 = 0x5820;

// Device control.
pub const E1000_CTRL_MDIO: u32 = 0x0010_0000;
pub const E1000_CTRL_MDC: u32 = 0x0020_0000;
pub const E1000_CTRL_MDIO_DIR: u32 = 0x0100_0000;
pub const E1000_CTRL_MDC_DIR: u32 = 0x0200_0000;
pub const E1000_CTRL_RST: u32 = 0x0400_0000;

// EEPROM control and data.
pub const E1000_EECD_SK: u32 = 0x0001;
pub const E1000_EECD_CS: u32 = 0x0002;
pub const E1000_EECD_DI: u32 = 0x0004;
pub const E1000_EECD_DO: u32 = 0x0008;
pub const E1000_EECD_REQ: u32 = 0x0040;
pub const E1000_EECD_GNT: u32 = 0x0080;
pub const E1000_EECD_SIZE: u32 = 0x0200;
pub const E1000_EEPROM_GRANT_ATTEMPTS: u32 = 1000;
pub const EEPROM_READ_OPCODE_MICROWIRE: u32 = 0x6;
pub const EEPROM_CHECKSUM_REG: u32 = 0x3F;
pub const EEPROM_SUM: u32 = 0xBABA;
pub const NODE_ADDRESS_SIZE: u32 = 6;

// Management data interface to the PHY.
pub const E1000_MDIC_REG_SHIFT: u32 = 16;
pub const E1000_MDIC_PHY_SHIFT: u32 = 21;
pub const E1000_MDIC_OP_WRITE: u32 = 0x0400_0000;
pub const E1000_MDIC_READY: u32 = 0x1000_0000;
pub const MAX_PHY_REG_ADDRESS: u32 = 0x1F;
pub const PHY_PREAMBLE: u32 = 0xFFFF_FFFF;
pub const PHY_PREAMBLE_SIZE: u32 = 32;
pub const PHY_SOF: u32 = 0x01;
pub const PHY_OP_READ: u32 = 0x02;
pub const PHY_CTRL: u32 = 0x00;
pub const MII_CR_POWER_DOWN: u32 = 0x0800;

// Receive control.
pub const E1000_RCTL_EN: u32 = 0x0000_0002;
pub const E1000_RCTL_SBP: u32 = 0x0000_0004;
pub const E1000_RCTL_UPE: u32 = 0x0000_0008;
pub const E1000_RCTL_MPE: u32 = 0x0000_0010;
pub const E1000_RCTL_LPE: u32 = 0x0000_0020;
pub const E1000_RCTL_LBM_NO: u32 = 0x0000_0000;
pub const E1000_RCTL_RDMTS_HALF: u32 = 0x0000_0000;
pub const E1000_RCTL_MO_SHIFT: u32 = 12;
pub const E1000_RCTL_BAM: u32 = 0x0000_8000;
pub const E1000_RCTL_SZ_2048: u32 = 0x0000_0000;
pub const E1000_RCTL_SZ_4096: u32 = 0x0003_0000;
pub const E1000_RCTL_VFE: u32 = 0x0004_0000;
pub const E1000_RCTL_BSEX: u32 = 0x0200_0000;

// Transmit control and inter-packet gap.
pub const E1000_TCTL_EN: u32 = 0x0000_0002;
pub const E1000_TCTL_PSP: u32 = 0x0000_0008;
pub const E1000_TCTL_CT: u32 = 0x0000_0FF0;
pub const E1000_TCTL_RTLC: u32 = 0x0100_0000;
pub const E1000_COLLISION_THRESHOLD: u32 = 15;
pub const E1000_CT_SHIFT: u32 = 4;
pub const DEFAULT_82543_TIPG_IPGT_COPPER: u32 = 8;
pub const DEFAULT_82543_TIPG_IPGR1: u32 = 8;
pub const DEFAULT_82543_TIPG_IPGR2: u32 = 6;
pub const E1000_TIPG_IPGR1_SHIFT: u32 = 10;
pub const E1000_TIPG_IPGR2_SHIFT: u32 = 20;
pub const E1000_TXDCTL_WTHRESH: u32 = 0x003F_0000;
pub const E1000_TXDCTL_FULL_TX_DESC_WB: u32 = 0x0101_0000;

// Interrupts.
pub const E1000_ICS_LSC: u32 = 0x0000_0004;
pub const E1000_ICS_RXDMT0: u32 = 0x0000_0010;
/// Receive timer, transmit write-back, receive threshold, receive sequence error, link change.
pub const E1000_IMS_ENABLE_MASK: u32 = 0x0000_009D;

// Management control, packet buffer, address filters.
pub const E1000_MANC_ARP_EN: u32 = 0x0000_2000;
pub const E1000_PBA_48K: u32 = 0x0030;
pub const E1000_RAR_ENTRIES: u32 = 15;
pub const E1000_NUM_MTA_REGISTERS: u32 = 128;
pub const E1000_MC_TBL_SIZE: u32 = 128;
pub const E1000_RAH_AV: u32 = 0x8000_0000;

// Descriptors.
pub const E1000_TXD_CMD_EOP: u32 = 0x0100_0000;
pub const E1000_TXD_CMD_IFCS: u32 = 0x0200_0000;
pub const E1000_TXD_CMD_RS: u32 = 0x0800_0000;
pub const E1000_TXD_STAT_DD: u32 = 0x0000_0001;
pub const E1000_RXD_STAT_DD: u32 = 0x01;
/// Size in bytes of one transmit or one receive descriptor.
pub const DESC_SIZE: usize = 16;
/// Descriptors in each ring.
pub const DEFAULT_TXD: usize = 128;
pub const RXBUFFER_2048: u32 = 2048;
pub const MAX_JUMBO_FRAME_SIZE: u32 = 0x3F00;

// Limits and flags of the network stack.
pub const ETH_ZLEN: u32 = 60;
pub const ETH_HLEN: u32 = 14;
pub const ETH_FCS_LEN: u32 = 4;
pub const ETH_DATA_LEN: u32 = 1500;
pub const ETH_MIN_MTU: u32 = 68;
pub const IFF_PROMISC: u32 = 0x0100;
pub const IFF_ALLMULTI: u32 = 0x0200;
pub const IORESOURCE_IO: u64 = 0x0100;
pub const IORESOURCE_MEM: u64 = 0x0200;

} // verus!
