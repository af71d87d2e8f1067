use drooling::plan::WritePlan;
use drooling::session::{flash_steps, read_back_matches, run_start, verify_range, wait_step, FlashStep, RunStart, WaitStep};

fn plan_with(write: Vec<(u32, Vec<u8>)>) -> WritePlan {
    WritePlan { erase: vec![], write }
}

#[test]
fn spot_check_reads_one_page_at_most() {
    assert_eq!(verify_range(&plan_with(vec![])), None);
    assert_eq!(verify_range(&plan_with(vec![(0x1000_0000, vec![0; 512])])), Some((0x1000_0000, 256)));
    assert_eq!(verify_range(&plan_with(vec![(0x1000_0100, vec![0; 100]), (0x1000_2000, vec![0; 256])])), Some((0x1000_0100, 100)));
}

#[test]
fn read_back_is_compared_with_the_first_page() {
    let data: Vec<u8> = (0..512u32).map(|i| i as u8).collect();
    let plan = plan_with(vec![(0x1000_0000, data.clone())]);
    assert!(read_back_matches(&plan, &data[..256].to_vec()));
    let mut bad = data[..256].to_vec();
    bad[17] ^= 1;
    assert!(!read_back_matches(&plan, &bad));
    assert!(!read_back_matches(&plan, &data[..255].to_vec()));
}

#[test]
fn waiting_and_starting_decisions() {
    assert_eq!(wait_step(true, true), WaitStep::Found);
    assert_eq!(wait_step(false, true), WaitStep::TimedOut);
    assert_eq!(wait_step(false, false), WaitStep::Sleep);
    assert_eq!(run_start(true, true), RunStart::RebootIntoBootsel);
    assert_eq!(run_start(false, true), RunStart::AlreadyInBootsel);
    assert_eq!(run_start(false, false), RunStart::NoDevice);
}

#[test]
fn session_commands_come_in_order() {
    let plan = WritePlan {
        erase: vec![(0x1000_0000, 0x2000), (0x1000_5000, 0x1000)],
        write: vec![(0x1000_0000, vec![0; 256]), (0x1000_5000, vec![1; 256])],
    };
    assert_eq!(
        flash_steps(&plan, true),
        vec![
            FlashStep::ClaimExclusive,
            FlashStep::ExitXip,
            FlashStep::Erase { addr: 0x1000_0000, len: 0x2000 },
            FlashStep::Erase { addr: 0x1000_5000, len: 0x1000 },
            FlashStep::Write { chunk: 0 },
            FlashStep::Write { chunk: 1 },
            FlashStep::VerifyFirstPage,
            FlashStep::RebootIntoApplication,
        ]
    );
    assert_eq!(
        flash_steps(&plan_with(vec![]), false),
        vec![FlashStep::ClaimExclusive, FlashStep::ExitXip, FlashStep::VerifyFirstPage, FlashStep::StayInBootsel]
    );
}
