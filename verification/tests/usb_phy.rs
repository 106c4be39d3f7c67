use amp_recovery::usb_phy::{
    PhyReset, PhyResetAction, GCCFG_OFFSET, GCCFG_PWRDWN, GRSTCTL_AHBIDL, GRSTCTL_CSRST,
    GRSTCTL_OFFSET, RESET_DELAY_CYCLES, RESET_TIMEOUT_ITERATIONS, USB_OTG_FS_GLOBAL,
};

/// Register bank standing in for the MCU registers: it records every register
/// write and read in order, so that tests can check the exact sequence.
#[derive(Debug, Clone, Default)]
struct MockRegisterBank {
    rcc_ahb2enr: u32,
    rcc_ahb2rstr: u32,
    grstctl: u32,
    gccfg: u32,
    log: Vec<Operation>,
    delay_count: usize,
}

#[derive(Debug, Clone, PartialEq, Eq)]
enum Operation {
    RccAhb2enrRead,
    RccAhb2enrWrite(u32),
    RccAhb2rstrRead,
    RccAhb2rstrWrite(u32),
    UsbGrstctlRead,
    UsbGrstctlWrite(u32),
    UsbGccfgRead,
    UsbGccfgWrite(u32),
    Delay(usize),
}

impl MockRegisterBank {
    fn new() -> Self {
        Self {
            rcc_ahb2enr: 1 << 22,
            rcc_ahb2rstr: 0,
            grstctl: 0,
            gccfg: 0,
            log: Vec::new(),
            delay_count: 0,
        }
    }

    fn record(&mut self, op: Operation) {
        self.log.push(op);
    }

    fn simulate_delay(&mut self, cycles: u32) {
        self.delay_count += cycles as usize;
        self.record(Operation::Delay(cycles as usize));
    }

    fn get_step_summary(&self) -> String {
        let mut summary = String::new();
        for op in &self.log {
            match op {
                Operation::RccAhb2enrWrite(v) => {
                    if v & (1 << 22) != 0 || v & (1 << 7) != 0 {
                        summary.push_str("OTGFSEN_SET;");
                    } else {
                        summary.push_str("OTGFSEN_CLEAR;");
                    }
                }
                Operation::RccAhb2rstrWrite(v) => {
                    if v & (1 << 7) != 0 {
                        summary.push_str("OTGFSRST_SET;");
                    } else {
                        summary.push_str("OTGFSRST_CLEAR;");
                    }
                }
                Operation::UsbGrstctlWrite(v) => {
                    if v & 1 != 0 {
                        summary.push_str("CSRST_SET;");
                    }
                }
                Operation::UsbGccfgWrite(v) => {
                    if v == &0 {
                        summary.push_str("GCCFG_CLEAR;");
                    } else if v & (1 << 16) != 0 {
                        summary.push_str("GCCFG_PWRDWN_SET;");
                    }
                }
                _ => {}
            }
        }
        summary
    }

    /// Performs one action of the library's reset sequence on the mock, the
    /// clock enable being bit `clock_bit` of AHB2ENR. Returns GRSTCTL as
    /// read, or 0 when the action reads nothing. The AHB master reports idle
    /// when `idle` is set, and a core soft reset has cleared by the first read
    /// after it when `csrst_clears` is set.
    fn perform(&mut self, action: PhyResetAction, clock_bit: u32, idle: bool, csrst_clears: bool) -> u32 {
        match action {
            PhyResetAction::SetClockEnable(on) => {
                if on {
                    self.rcc_ahb2enr |= 1 << clock_bit;
                } else {
                    self.rcc_ahb2enr &= !(1 << clock_bit);
                }
                self.record(Operation::RccAhb2enrWrite(self.rcc_ahb2enr));
                0
            }
            PhyResetAction::SetPeripheralReset(on) => {
                if on {
                    self.rcc_ahb2rstr |= 1 << 7;
                } else {
                    self.rcc_ahb2rstr &= !(1 << 7);
                }
                self.record(Operation::RccAhb2rstrWrite(self.rcc_ahb2rstr));
                0
            }
            PhyResetAction::Delay(cycles) => {
                self.simulate_delay(cycles);
                0
            }
            PhyResetAction::ReadGrstctl => {
                if idle {
                    self.grstctl |= 1 << 31;
                }
                if csrst_clears {
                    self.grstctl &= !1;
                }
                self.record(Operation::UsbGrstctlRead);
                self.grstctl
            }
            PhyResetAction::WriteGrstctl(value) => {
                self.grstctl |= value;
                self.record(Operation::UsbGrstctlWrite(self.grstctl));
                0
            }
            PhyResetAction::WriteGccfg(value) => {
                self.gccfg = value;
                self.record(Operation::UsbGccfgWrite(self.gccfg));
                0
            }
            PhyResetAction::Done => 0,
        }
    }
}

/// Runs the library's reset sequence against the mock until it is done;
/// returns the number of steps taken.
fn run_reset(mock: &mut MockRegisterBank, clock_bit: u32, idle: bool, csrst_clears: bool) -> usize {
    let mut reset = PhyReset::new();
    let mut grstctl = 0u32;
    let mut steps = 0usize;
    while !reset.is_done() {
        let action = reset.step(grstctl);
        steps += 1;
        grstctl = mock.perform(action, clock_bit, idle, csrst_clears);
    }
    steps
}

const EXPECTED_STEPS: &str =
    "OTGFSEN_CLEAR;OTGFSEN_SET;OTGFSRST_SET;OTGFSRST_CLEAR;CSRST_SET;GCCFG_CLEAR;GCCFG_PWRDWN_SET;";

#[test]
fn test_usb_phy_reset_sequence_stm32f4() {
    let mut mock = MockRegisterBank::new();

    // Step 1: Disable USB OTG FS clock (RCC AHB2ENR.OTGFSEN = 0)
    mock.rcc_ahb2enr &= !(1 << 22);
    mock.record(Operation::RccAhb2enrWrite(mock.rcc_ahb2enr));
    mock.simulate_delay(100);

    // Step 2: Re-enable the clock (RCC AHB2ENR.OTGFSEN = 1)
    mock.rcc_ahb2enr |= 1 << 22;
    mock.record(Operation::RccAhb2enrWrite(mock.rcc_ahb2enr));

    // Step 3: Assert peripheral reset (RCC AHB2RSTR.OTGFSRST = 1)
    mock.rcc_ahb2rstr |= 1 << 7;
    mock.record(Operation::RccAhb2rstrWrite(mock.rcc_ahb2rstr));
    mock.simulate_delay(100);

    // Step 4: Deassert peripheral reset (RCC AHB2RSTR.OTGFSRST = 0)
    mock.rcc_ahb2rstr &= !(1 << 7);
    mock.record(Operation::RccAhb2rstrWrite(mock.rcc_ahb2rstr));
    mock.simulate_delay(100);

    // Step 5: Wait for AHB idle (GRSTCTL.AHBIDL, bit 31); already idle here
    mock.grstctl |= 1 << 31;
    mock.record(Operation::UsbGrstctlRead);

    // Step 6: Core soft reset (GRSTCTL.CSRST, bit 0)
    mock.grstctl |= 1;
    mock.record(Operation::UsbGrstctlWrite(mock.grstctl));

    // Self-clearing
    mock.record(Operation::UsbGrstctlRead);
    mock.grstctl &= !1;

    // Step 7: PHY power cycle (GCCFG = 0, then GCCFG.PWRDWN = 1)
    mock.gccfg = 0;
    mock.record(Operation::UsbGccfgWrite(mock.gccfg));
    mock.simulate_delay(100);

    mock.gccfg |= 1 << 16;
    mock.record(Operation::UsbGccfgWrite(mock.gccfg));

    let steps = mock.get_step_summary();
    assert_eq!(
        steps,
        "OTGFSEN_CLEAR;OTGFSEN_SET;OTGFSRST_SET;OTGFSRST_CLEAR;CSRST_SET;GCCFG_CLEAR;GCCFG_PWRDWN_SET;"
    );
}

#[test]
fn test_usb_phy_reset_sequence_stm32f7() {
    let mut mock = MockRegisterBank {
        rcc_ahb2enr: 1 << 7,
        rcc_ahb2rstr: 0,
        grstctl: 0,
        gccfg: 0,
        log: Vec::new(),
        delay_count: 0,
    };

    mock.rcc_ahb2enr &= !(1 << 7);
    mock.record(Operation::RccAhb2enrWrite(mock.rcc_ahb2enr));
    mock.simulate_delay(100);

    mock.rcc_ahb2enr |= 1 << 7;
    mock.record(Operation::RccAhb2enrWrite(mock.rcc_ahb2enr));

    mock.rcc_ahb2rstr |= 1 << 7;
    mock.record(Operation::RccAhb2rstrWrite(mock.rcc_ahb2rstr));
    mock.simulate_delay(100);

    mock.rcc_ahb2rstr &= !(1 << 7);
    mock.record(Operation::RccAhb2rstrWrite(mock.rcc_ahb2rstr));
    mock.simulate_delay(100);

    mock.grstctl |= 1 << 31;
    mock.record(Operation::UsbGrstctlRead);

    mock.grstctl |= 1;
    mock.record(Operation::UsbGrstctlWrite(mock.grstctl));
    mock.record(Operation::UsbGrstctlRead);
    mock.grstctl &= !1;

    mock.gccfg = 0;
    mock.record(Operation::UsbGccfgWrite(mock.gccfg));
    mock.simulate_delay(100);

    mock.gccfg |= 1 << 16;
    mock.record(Operation::UsbGccfgWrite(mock.gccfg));

    let steps = mock.get_step_summary();
    assert_eq!(
        steps,
        "OTGFSEN_CLEAR;OTGFSEN_SET;OTGFSRST_SET;OTGFSRST_CLEAR;CSRST_SET;GCCFG_CLEAR;GCCFG_PWRDWN_SET;"
    );
}

#[test]
fn test_usb_register_addresses() {
    assert_eq!(USB_OTG_FS_GLOBAL, 0x5000_0000);
    assert_eq!(GRSTCTL_OFFSET, 0x010);
    assert_eq!(GCCFG_OFFSET, 0x038);
}

#[test]
fn test_usb_reset_timing_constants() {
    let expected_delay: u32 = RESET_DELAY_CYCLES;
    let expected_timeout: u32 = RESET_TIMEOUT_ITERATIONS;

    assert_eq!(expected_delay, 100);
    assert_eq!(expected_timeout, 100_000);
}

#[test]
fn test_usb_base_address_alignment() {
    assert_eq!(USB_OTG_FS_GLOBAL % 4, 0);
    assert_eq!(GRSTCTL_OFFSET % 4, 0);
    assert_eq!(GCCFG_OFFSET % 4, 0);
}

#[test]
fn test_register_bits() {
    assert_eq!(GRSTCTL_AHBIDL, 1 << 31);
    assert_eq!(GRSTCTL_CSRST, 1);
    assert_eq!(GCCFG_PWRDWN, 1 << 16);
}

#[test]
fn test_state_machine_sequence_stm32f4() {
    let mut mock = MockRegisterBank::new();
    let steps = run_reset(&mut mock, 22, true, true);
    assert_eq!(mock.get_step_summary(), EXPECTED_STEPS);
    assert_eq!(
        mock.log,
        vec![
            Operation::RccAhb2enrWrite(0),
            Operation::Delay(100),
            Operation::RccAhb2enrWrite(1 << 22),
            Operation::RccAhb2rstrWrite(1 << 7),
            Operation::Delay(100),
            Operation::RccAhb2rstrWrite(0),
            Operation::Delay(100),
            Operation::UsbGrstctlRead,
            Operation::UsbGrstctlWrite((1 << 31) | 1),
            Operation::UsbGrstctlRead,
            Operation::UsbGccfgWrite(0),
            Operation::Delay(100),
            Operation::UsbGccfgWrite(1 << 16),
        ]
    );
    assert_eq!(steps, 13);
    assert_eq!(mock.delay_count, 400);
    assert_eq!(mock.gccfg, 1 << 16);
}

#[test]
fn test_state_machine_sequence_stm32f7() {
    let mut mock = MockRegisterBank::new();
    mock.rcc_ahb2enr = 1 << 7;
    run_reset(&mut mock, 7, true, true);
    assert_eq!(mock.get_step_summary(), EXPECTED_STEPS);
    assert_eq!(mock.log[0], Operation::RccAhb2enrWrite(0));
    assert_eq!(mock.log[2], Operation::RccAhb2enrWrite(1 << 7));
}

#[test]
fn test_state_machine_gives_up_after_timeouts() {
    // The AHB master never reports idle and the soft reset never clears:
    // both waits read GRSTCTL exactly RESET_TIMEOUT_ITERATIONS times and the
    // sequence still completes with every write.
    let mut mock = MockRegisterBank::new();
    let steps = run_reset(&mut mock, 22, false, false);
    let reads = mock.log.iter().filter(|op| **op == Operation::UsbGrstctlRead).count();
    assert_eq!(reads, 2 * RESET_TIMEOUT_ITERATIONS as usize);
    assert_eq!(steps, 2 * RESET_TIMEOUT_ITERATIONS as usize + 11);
    assert_eq!(mock.get_step_summary(), EXPECTED_STEPS);
}

#[test]
fn test_state_machine_waits_for_idle() {
    // GRSTCTL reports busy twice before idle: three reads in the first wait.
    let mut reset = PhyReset::new();
    let mut actions = Vec::new();
    for _ in 0..8 {
        actions.push(reset.step(0));
    }
    assert_eq!(actions[7], PhyResetAction::ReadGrstctl);
    assert_eq!(reset.step(0), PhyResetAction::ReadGrstctl);
    assert_eq!(reset.step(0), PhyResetAction::ReadGrstctl);
    assert_eq!(reset.step(GRSTCTL_AHBIDL), PhyResetAction::WriteGrstctl(GRSTCTL_CSRST));
    assert_eq!(reset.step(0), PhyResetAction::ReadGrstctl);
    // Soft reset still in progress, then cleared.
    assert_eq!(reset.step(GRSTCTL_CSRST), PhyResetAction::ReadGrstctl);
    assert_eq!(reset.step(0), PhyResetAction::WriteGccfg(0));
    assert_eq!(reset.step(0), PhyResetAction::Delay(RESET_DELAY_CYCLES));
    assert_eq!(reset.step(0), PhyResetAction::WriteGccfg(GCCFG_PWRDWN));
    assert!(reset.is_done());
    assert_eq!(reset.step(0), PhyResetAction::Done);
    assert!(reset.is_done());
}

#[test]
fn test_state_machine_ignores_reads_outside_waits() {
    let mut a = PhyReset::new();
    let mut b = PhyReset::new();
    for _ in 0..7 {
        assert_eq!(a.step(0), b.step(u32::MAX));
    }
    assert!(!a.is_done());
}
