use kernel_core::mm::{Freelist, PhysMem};
use kernel_core::thread::{context_switch, is_usermode_thread, load_register, save_register, Context, Thread, ThreadTable};

fn freelist_with(pages: &[usize]) -> Freelist {
    let mut m = PhysMem::new();
    let mut f = Freelist::new();
    for p in pages {
        f.insert(&mut m, *p);
    }
    f
}

#[test]
fn first_thread_is_current_and_alone() {
    let mut t = ThreadTable::new();
    let mut f = freelist_with(&[0x1000]);
    Thread::new(&mut t, &mut f, 0xAAAA, 0xBBBB, false);
    assert_eq!(f.len(), 0);
    assert_eq!(load_register(&t, 6), 0xAAAA);
    assert_eq!(load_register(&t, 0), 0);
    assert!(!is_usermode_thread(&t));
    let ctx = context_switch(&mut t, 0x1234, 0x5678);
    assert_eq!(ctx, Context { stack: 0x1234, pagemap: 0x5678 });
}

#[test]
fn user_flag_is_inherited() {
    let mut t = ThreadTable::new();
    let mut f = freelist_with(&[0x1000, 0x2000]);
    Thread::new(&mut t, &mut f, 1, 2, true);
    Thread::new(&mut t, &mut f, 3, 4, false);
    assert!(is_usermode_thread(&t));
    // The second thread is not linked into the ring, so the first stays on.
    let ctx = context_switch(&mut t, 5, 6);
    assert_eq!(ctx, Context { stack: 5, pagemap: 6 });
}

#[test]
fn save_and_load_registers() {
    let mut t = ThreadTable::new();
    let mut f = freelist_with(&[0x1000]);
    Thread::new(&mut t, &mut f, 0, 0, false);
    save_register(&mut t, 3, 99);
    assert_eq!(load_register(&t, 3), 99);
    assert_eq!(load_register(&t, 4), 0);
    Thread::exit(&mut t);
    save_register(&mut t, 3, 100);
    assert_eq!(load_register(&t, 3), 99);
}

#[test]
fn reachability_checks() {
    let mut t = ThreadTable::new();
    assert!(!t.has_current());
    let mut f = freelist_with(&[0x1000]);
    Thread::new(&mut t, &mut f, 0, 0, false);
    t.links_hold();
    assert!(t.has_current());
    assert!(t.current_is_active());
    assert!(t.active_reachable());
    Thread::exit(&mut t);
    assert!(!t.current_is_active());
    assert!(!t.active_reachable());
}

#[test]
fn switching_visits_the_active_thread_after_exit_elsewhere() {
    let mut t = ThreadTable::new();
    let mut f = freelist_with(&[0x1000]);
    Thread::new(&mut t, &mut f, 7, 8, false);
    for _ in 0..3 {
        let ctx = context_switch(&mut t, 9, 10);
        assert_eq!(ctx, Context { stack: 9, pagemap: 10 });
        assert!(t.current_is_active());
    }
}
