use kernelx_fs::devfs::loop_dev::{loop_request, LoopInode, LoopIoctlReply, LoopRequest, LOOP_BLKGETSIZE64, LOOP_CLR_FD,
    LOOP_GET_STATUS, LOOP_SET_FD, LOOP_SET_STATUS};
use kernelx_fs::devfs::nodes::DeviceType;
use kernelx_fs::devfs::superblock::{add_device, init, DevfsEntry, InitialNode, InodeNumbers, DEVFS_DIR_MODE};
use kernelx_fs::devfs::pty::{PtyInner, ReadWait};
use kernelx_fs::devfs::rtc::{epoch_to_rtc_time, is_leap, rtc_request, rtc_time_to_epoch, RtcRequest, RtcTime, RTC_RD_TIME};
use kernelx_fs::errno::Errno;
use kernelx_fs::ext4::page_cache::InodePageCache;
use kernelx_fs::vfs::{HANG_UP, READ_READY, WRITE_READY, SeekWhence};
use kernelx_fs::file::{handle_seek_position, FileFlags};

#[test]
fn rtc_epoch_zero_is_a_thursday_in_1970() {
    let t = epoch_to_rtc_time(0);
    assert_eq!((t.tm_year, t.tm_mon, t.tm_mday, t.tm_hour, t.tm_min, t.tm_sec), (70, 0, 1, 0, 0, 0));
    assert_eq!((t.tm_wday, t.tm_yday, t.tm_isdst), (4, 0, 0));
}

#[test]
fn rtc_leap_day_of_2000() {
    let t = epoch_to_rtc_time(951_782_400 + 3600 * 13 + 60 * 5 + 7);
    assert_eq!((t.tm_year, t.tm_mon, t.tm_mday, t.tm_hour, t.tm_min, t.tm_sec), (100, 1, 29, 13, 5, 7));
    assert_eq!((t.tm_wday, t.tm_yday), (2, 59));
}

#[test]
fn rtc_round_trips() {
    for e in [0u64, 59, 86_399, 86_400, 951_782_400, 1_700_000_000, 4_102_444_800] {
        assert_eq!(rtc_time_to_epoch(epoch_to_rtc_time(e)), Ok(e));
    }
}

#[test]
fn rtc_rejects_bad_fields() {
    let good = RtcTime { tm_sec: 0, tm_min: 0, tm_hour: 0, tm_mday: 1, tm_mon: 0, tm_year: 70, tm_wday: 0, tm_yday: 0, tm_isdst: 0 };
    assert_eq!(rtc_time_to_epoch(good), Ok(0));
    assert_eq!(rtc_time_to_epoch(RtcTime { tm_sec: 60, ..good }), Err(Errno::EINVAL));
    assert_eq!(rtc_time_to_epoch(RtcTime { tm_mon: 12, ..good }), Err(Errno::EINVAL));
    assert_eq!(rtc_time_to_epoch(RtcTime { tm_year: 69, ..good }), Err(Errno::EINVAL));
    assert_eq!(rtc_time_to_epoch(RtcTime { tm_mon: 1, tm_mday: 29, ..good }), Err(Errno::EINVAL));
    assert_eq!(rtc_time_to_epoch(RtcTime { tm_year: 72, tm_mon: 1, tm_mday: 29, ..good }), Ok(68_169_600));
    assert!(is_leap(2000) && !is_leap(1900) && is_leap(2024) && !is_leap(2023));
    assert_eq!(rtc_request(RTC_RD_TIME), Ok(RtcRequest::ReadTime));
    assert_eq!(rtc_request(1), Err(Errno::ENOTTY));
}

#[test]
fn pty_pair_lifecycle() {
    let mut p = PtyInner::new(3);
    assert_eq!(p.slave_number(), 3);
    assert!(p.is_locked());
    assert_eq!(p.slave_open(), Err(Errno::EIO));
    p.set_locked(false);
    assert_eq!(p.slave_open(), Ok(()));
    assert_eq!(p.write_master(5, b"hi", true), Ok((5, Some(READ_READY), Some(READ_READY))));
    assert_eq!(p.master_poll_event(READ_READY | WRITE_READY), Some(READ_READY | WRITE_READY));
    assert_eq!(p.read_master(1, true), Ok(b"h".to_vec()));
    assert_eq!(p.read_master(10, true), Ok(b"i".to_vec()));
    assert_eq!(p.read_master(10, false), Err(ReadWait::Fail(Errno::EAGAIN)));
    assert_eq!(p.read_master(10, true), Err(ReadWait::Sleep));
    assert_eq!(p.read_slave(Some(4), true), Ok(4));
    assert_eq!(p.read_slave(None, false), Err(ReadWait::Fail(Errno::EAGAIN)));
    assert_eq!(p.slave_close(), Some(HANG_UP));
    assert_eq!(p.write_master(1, b"x", false), Err(Errno::EIO));
    assert_eq!(p.read_master(10, true), Err(ReadWait::Fail(Errno::EIO)));
    assert_eq!(p.master_poll_event(READ_READY | WRITE_READY), Some(HANG_UP));
}

#[test]
fn pty_master_close_hangs_up_the_slave() {
    let mut p = PtyInner::new(0);
    p.master_open();
    p.set_locked(false);
    assert_eq!(p.slave_open(), Ok(()));
    assert!(p.master_close());
    assert_eq!(p.slave_poll_event(WRITE_READY, false), Some(HANG_UP));
    assert_eq!(p.read_slave(None, true), Err(ReadWait::Eof));
    assert_eq!(p.write_slave_check(), Err(Errno::EIO));
    assert!(!p.hangup_master());
}

#[test]
fn loop_device_binding() {
    let mut l = LoopInode::new(9, 2);
    assert!(!l.is_bound());
    assert_eq!(l.target_inode(), Err(Errno::ENXIO));
    assert_eq!(l.get_status(0).err(), Some(Errno::EINVAL));
    assert_eq!(l.get_status(8).err(), Some(Errno::ENXIO));
    assert_eq!(l.bind_target_inode(42), Ok(()));
    assert_eq!(l.bind_target_inode(43), Err(Errno::EBUSY));
    assert_eq!(l.target_inode(), Ok(42));
    let info = l.get_status(8).ok().unwrap();
    assert_eq!((info.lo_number, info.lo_inode, info.lo_name.len()), (2, 42, 64));
    l.clear_target_inode();
    assert!(!l.is_bound());
    assert_eq!(loop_request(LOOP_SET_FD), Ok(LoopRequest::SetFd));
    assert_eq!(loop_request(LOOP_CLR_FD), Ok(LoopRequest::ClrFd));
    assert_eq!(loop_request(LOOP_GET_STATUS), Ok(LoopRequest::GetStatus));
    assert_eq!(loop_request(0x1234), Err(Errno::ENOTTY));
}

#[test]
fn page_cache_writes_only_into_cached_pages() {
    let mut c = InodePageCache::new();
    let f = c.insert_frame(0, vec![1u8; 4096]);
    assert_eq!(f, vec![1u8; 4096]);
    assert_eq!(c.get_frame(0), Some(vec![1u8; 4096]));
    assert_eq!(c.get_frame(1), None);
    assert!(!c.has_dirty_page());
    assert!(!c.write_if_cached(b"abc", 4095));
    assert!(!c.has_dirty_page());
    assert!(c.write_if_cached(b"xyz", 10));
    assert!(c.has_dirty_page());
    assert_eq!(c.dirty_pages(), vec![0]);
    let mut buf = vec![9u8; 6];
    c.copy_to_slice(&mut buf, 8, 6);
    assert_eq!(buf, vec![1, 1, b'x', b'y', b'z', 1]);
    let mut buf = vec![9u8; 4];
    c.copy_to_slice(&mut buf, 4094, 4);
    assert_eq!(buf, vec![1, 1, 9, 9]);
    c.mark_clean(0);
    assert!(!c.has_dirty_page());
    c.mark_dirty(0);
    assert_eq!(c.dirty_pages(), vec![0]);
}

#[test]
fn page_cache_truncate_zeroes_the_tail() {
    let mut c = InodePageCache::new();
    c.insert_frame(0, vec![7u8; 4096]);
    c.insert_frame(1, vec![7u8; 4096]);
    c.insert_frame(2, vec![7u8; 4096]);
    c.discard_after_truncate(4096 + 100);
    assert!(c.get_frame(2).is_none());
    let p1 = c.get_frame(1).unwrap();
    assert_eq!(p1[99], 7);
    assert_eq!(p1[100], 0);
    assert_eq!(p1[4095], 0);
    assert_eq!(c.get_frame(0), Some(vec![7u8; 4096]));
    c.clear();
    assert!(c.get_frame(0).is_none());
}

#[test]
fn page_cache_insert_keeps_the_cached_frame() {
    let mut c = InodePageCache::new();
    c.insert_frame(5, vec![1u8; 4096]);
    let again = c.insert_frame(5, vec![2u8; 4096]);
    assert_eq!(again, vec![1u8; 4096]);
    assert!(!c.is_over_capacity());
    for i in 0..80usize {
        c.insert_frame(100 + i, vec![0u8; 4096]);
    }
    assert!(!c.is_over_capacity());
    c.shrink_to_capacity();
    assert!(!c.is_over_capacity());
}

#[test]
fn loop_ioctl_binds_and_reports() {
    let mut l = LoopInode::new(9, 1);
    assert_eq!(l.ioctl(LOOP_SET_FD, 3, None).err(), Some(Errno::EINVAL));
    assert_eq!(l.ioctl(LOOP_SET_FD, 3, Some((40, true))).err(), Some(Errno::EINVAL));
    assert!(matches!(l.ioctl(LOOP_SET_FD, 3, Some((40, false))), Ok(LoopIoctlReply::Done(0))));
    assert_eq!(l.ioctl(LOOP_SET_FD, 3, Some((41, false))).err(), Some(Errno::EBUSY));
    assert!(matches!(l.ioctl(LOOP_BLKGETSIZE64, 8, None), Ok(LoopIoctlReply::CopyOutSize(40))));
    match l.ioctl(LOOP_GET_STATUS, 8, None) {
        Ok(LoopIoctlReply::CopyOutInfo(info)) => assert_eq!((info.lo_number, info.lo_inode), (1, 40)),
        _ => panic!("status expected"),
    }
    assert!(matches!(l.ioctl(LOOP_SET_STATUS, 8, None), Ok(LoopIoctlReply::ReadInfo)));
    assert_eq!(l.ioctl(LOOP_SET_STATUS, 0, None).err(), Some(Errno::EINVAL));
    assert!(matches!(l.ioctl(LOOP_CLR_FD, 0, None), Ok(LoopIoctlReply::Done(0))));
    assert_eq!(l.ioctl(LOOP_GET_STATUS, 8, None).err(), Some(Errno::ENXIO));
    assert_eq!(l.ioctl(0x5555, 0, None).err(), Some(Errno::ENOTTY));
}

#[test]
fn pty_slave_output_reaches_the_master() {
    let mut p = PtyInner::new(1);
    p.set_locked(false);
    assert_eq!(p.slave_open(), Ok(()));
    assert_eq!(p.write_slave(2, b"o\r\n"), Ok((2, Some(READ_READY))));
    assert_eq!(p.read_master(8, false), Ok(b"o\r\n".to_vec()));
    assert_eq!(p.master_wait_event(READ_READY), (None, true));
    assert_eq!(p.master_wait_event(WRITE_READY), (Some(WRITE_READY), false));
    assert_eq!(p.slave_wait_event(READ_READY, false), (None, true));
    assert_eq!(p.slave_wait_event(READ_READY, true), (Some(READ_READY), false));
    p.master_open();
    assert!(p.master_close());
    assert_eq!(p.write_slave(1, b"x"), Err(Errno::EIO));
}

#[test]
fn devfs_start_up_nodes_and_devices() {
    let mut numbers = InodeNumbers::new(2);
    let nodes = init(&mut numbers, 1);
    assert_eq!(nodes.len(), 23);
    assert_eq!(nodes[0], DevfsEntry { node: InitialNode::Null, ino: 2, parent: 1 });
    assert_eq!(nodes[3], DevfsEntry { node: InitialNode::PtsDir, ino: 5, parent: 1 });
    assert_eq!(nodes[5], DevfsEntry { node: InitialNode::MiscDir, ino: 7, parent: 1 });
    assert_eq!(nodes[6], DevfsEntry { node: InitialNode::Rtc, ino: 8, parent: 7 });
    assert_eq!(nodes[22], DevfsEntry { node: InitialNode::Loop(15), ino: 24, parent: 1 });
    assert_eq!(DEVFS_DIR_MODE, 0o040755);
    assert_eq!(add_device(&mut numbers, DeviceType::Block), Some((DeviceType::Block, 25)));
    assert_eq!(add_device(&mut numbers, DeviceType::Rtc), None);
    assert_eq!(add_device(&mut numbers, DeviceType::Char), Some((DeviceType::Char, 26)));
}

#[test]
fn handle_seek_follows_the_plain_file_rules() {
    assert_eq!(FileFlags::dontcare(), FileFlags { writable: false, cloexec: false });
    assert_eq!(handle_seek_position(5, -1, SeekWhence::BEG, 10), Err(Errno::EINVAL));
    assert_eq!(handle_seek_position(5, -6, SeekWhence::CUR, 10), Err(Errno::EINVAL));
    assert_eq!(handle_seek_position(5, 3, SeekWhence::CUR, 10), Ok(8));
    assert_eq!(handle_seek_position(5, -11, SeekWhence::END, 10), Ok(usize::MAX));
    assert_eq!(handle_seek_position(5, 2, SeekWhence::END, 10), Ok(12));
}
