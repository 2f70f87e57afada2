//! Hub behaviour: publish/subscribe, the GOP cache, fan-out and its
//! slow-consumer policy, kicks, and statistics.

use xiu::gop::{FrameData, GopCache};
use xiu::streamhub::{
    NotifyInfo, PublishType, PublisherInfo, StreamHub, StreamHubError, StreamHubErrorValue,
    StreamIdentifier, SubDataType, SubscribeType, SubscriberInfo, Uuid,
};

fn ident(app: &str, stream: &str) -> StreamIdentifier {
    StreamIdentifier::Rtmp { app_name: app.to_string(), stream_name: stream.to_string() }
}

fn publisher(id: u128) -> PublisherInfo {
    PublisherInfo {
        id: Uuid { value: id },
        pub_type: PublishType::Rtmp,
        notify_info: NotifyInfo {
            request_url: "rtmp://localhost/app/live".to_string(),
            remote_addr: "127.0.0.1:5000".to_string(),
        },
    }
}

fn subscriber(id: u128) -> SubscriberInfo {
    SubscriberInfo {
        id: Uuid { value: id },
        sub_type: SubscribeType::PlayerHttpFlv,
        sub_data_type: SubDataType::Frame,
        notify_info: NotifyInfo {
            request_url: "/app/live.flv".to_string(),
            remote_addr: "127.0.0.1:6000".to_string(),
        },
    }
}

fn video_seq_header() -> FrameData {
    FrameData::Video { timestamp: 0, data: vec![0x17, 0x00, 0x00, 0x00, 0x00, 0x01] }
}

fn audio_seq_header() -> FrameData {
    FrameData::Audio { timestamp: 0, data: vec![0xaf, 0x00, 0x12] }
}

fn keyframe(ts: u32) -> FrameData {
    FrameData::Video { timestamp: ts, data: vec![0x17, 0x01, 0x00, 0x00, 0x00, 0x42] }
}

fn inter_frame(ts: u32) -> FrameData {
    FrameData::Video { timestamp: ts, data: vec![0x27, 0x01, 0x00, 0x00, 0x00, 0x43] }
}

fn audio_frame(ts: u32) -> FrameData {
    FrameData::Audio { timestamp: ts, data: vec![0xaf, 0x01, 0x44] }
}

fn frame_eq(a: &FrameData, b: &FrameData) -> bool {
    match (a, b) {
        (
            FrameData::Video { timestamp: t1, data: d1 },
            FrameData::Video { timestamp: t2, data: d2 },
        ) => t1 == t2 && d1 == d2,
        (
            FrameData::Audio { timestamp: t1, data: d1 },
            FrameData::Audio { timestamp: t2, data: d2 },
        ) => t1 == t2 && d1 == d2,
        (
            FrameData::MetaData { timestamp: t1, data: d1 },
            FrameData::MetaData { timestamp: t2, data: d2 },
        ) => t1 == t2 && d1 == d2,
        (
            FrameData::MediaInfo { timestamp: t1, data: d1 },
            FrameData::MediaInfo { timestamp: t2, data: d2 },
        ) => t1 == t2 && d1 == d2,
        _ => false,
    }
}

#[test]
fn first_publish_wins() {
    let mut hub = StreamHub::new(1, true);
    let id = ident("app", "live");
    assert!(hub.publish(&id, publisher(1)).is_ok());
    // a second publisher on the same path is refused
    let second = hub.publish(&id, publisher(2));
    assert_eq!(
        second,
        Err(StreamHubError { value: StreamHubErrorValue::DuplicatePublish })
    );
    // a third attempt still fails: only the first ever succeeds
    assert!(hub.publish(&id, publisher(3)).is_err());
    // after an unpublish the stream is free again
    hub.unpublish(&id);
    assert!(hub.publish(&id, publisher(2)).is_ok());
}

#[test]
fn publish_then_play_replays_headers_then_frames() {
    let mut hub = StreamHub::new(2, true);
    let id = ident("app", "live");
    hub.publish(&id, publisher(1)).unwrap();
    // a 2 second clip: headers, a keyframe, then inter frames and audio
    hub.broadcast_frame(&id, video_seq_header()).unwrap();
    hub.broadcast_frame(&id, audio_seq_header()).unwrap();
    hub.broadcast_frame(&id, keyframe(0)).unwrap();
    let mut pushed = vec![keyframe(0)];
    for i in 1..60u32 {
        let f = inter_frame(i * 33);
        hub.broadcast_frame(&id, f).unwrap();
        pushed.push(inter_frame(i * 33));
        let a = audio_frame(i * 33);
        hub.broadcast_frame(&id, a).unwrap();
        pushed.push(audio_frame(i * 33));
    }
    // a player arrives late
    let (tx, mut rx) = tokio::sync::mpsc::channel::<FrameData>(1024);
    let attached = hub.subscribe(&id, subscriber(10), tx).unwrap();
    assert!(attached);
    // it is handed the sequence headers first, then the cached GOP
    let first = rx.try_recv().unwrap();
    assert!(frame_eq(&first, &video_seq_header()));
    let second = rx.try_recv().unwrap();
    assert!(frame_eq(&second, &audio_seq_header()));
    let mut received = Vec::new();
    while let Ok(f) = rx.try_recv() {
        received.push(f);
    }
    // the replayed frames are a suffix of what was pushed, starting at a
    // keyframe, and in order
    assert!(!received.is_empty());
    assert!(frame_eq(&received[0], &keyframe(0)));
    assert_eq!(received.len(), pushed.len());
    for (got, want) in received.iter().zip(pushed.iter()) {
        assert!(frame_eq(got, want));
    }
    // live frames now flow in order after the replay
    hub.broadcast_frame(&id, inter_frame(2000)).unwrap();
    hub.broadcast_frame(&id, inter_frame(2033)).unwrap();
    assert!(frame_eq(&rx.try_recv().unwrap(), &inter_frame(2000)));
    assert!(frame_eq(&rx.try_recv().unwrap(), &inter_frame(2033)));
}

#[test]
fn slow_subscriber_is_dropped_publisher_unaffected() {
    let mut hub = StreamHub::new(1, true);
    let id = ident("app", "live");
    hub.publish(&id, publisher(1)).unwrap();
    // a subscriber that can hold one frame and never reads
    let (tx, _rx) = tokio::sync::mpsc::channel::<FrameData>(1);
    assert!(hub.subscribe(&id, subscriber(11), tx).unwrap());
    // a healthy subscriber alongside
    let (tx2, mut rx2) = tokio::sync::mpsc::channel::<FrameData>(1024);
    assert!(hub.subscribe(&id, subscriber(12), tx2).unwrap());
    let stats = hub.api_statistic(None, Some(&id), None);
    assert_eq!(stats[0].subscriber_count, 2);
    // the first frame fills the slow channel; the second overflows it
    hub.broadcast_frame(&id, keyframe(0)).unwrap();
    hub.broadcast_frame(&id, inter_frame(33)).unwrap();
    hub.broadcast_frame(&id, inter_frame(66)).unwrap();
    let stats = hub.api_statistic(None, Some(&id), None);
    assert_eq!(stats[0].subscriber_count, 1);
    assert_eq!(stats[0].subscriber_ids, vec![Uuid { value: 12 }]);
    // the healthy subscriber got everything
    assert!(frame_eq(&rx2.try_recv().unwrap(), &keyframe(0)));
    assert!(frame_eq(&rx2.try_recv().unwrap(), &inter_frame(33)));
    assert!(frame_eq(&rx2.try_recv().unwrap(), &inter_frame(66)));
}

#[test]
fn kick_subscriber_closes_channel_and_leaves_stream() {
    let mut hub = StreamHub::new(1, true);
    let id = ident("app", "live");
    hub.publish(&id, publisher(1)).unwrap();
    let (tx, mut rx) = tokio::sync::mpsc::channel::<FrameData>(16);
    assert!(hub.subscribe(&id, subscriber(21), tx).unwrap());
    hub.api_kick_client(Uuid { value: 21 });
    // the subscriber is gone from the statistics
    let stats = hub.api_statistic(None, Some(&id), None);
    assert_eq!(stats[0].subscriber_count, 0);
    // and its channel ends cleanly
    assert!(matches!(rx.try_recv(), Err(tokio::sync::mpsc::error::TryRecvError::Disconnected)));
    // the publisher is untouched
    assert!(stats[0].has_publisher);
}

#[test]
fn kick_publisher_keeps_subscribers() {
    let mut hub = StreamHub::new(1, true);
    let id = ident("app", "live");
    hub.publish(&id, publisher(31)).unwrap();
    let (tx, _rx) = tokio::sync::mpsc::channel::<FrameData>(16);
    assert!(hub.subscribe(&id, subscriber(32), tx).unwrap());
    hub.api_kick_client(Uuid { value: 31 });
    let stats = hub.api_statistic(None, Some(&id), None);
    assert!(!stats[0].has_publisher);
    assert_eq!(stats[0].subscriber_count, 1);
    // frames from the kicked publisher are refused now
    assert!(hub.broadcast_frame(&id, keyframe(0)).is_err());
}

#[test]
fn subscribe_rejected_when_configured() {
    let mut hub = StreamHub::new(1, false);
    let id = ident("app", "nosuch");
    let (tx, _rx) = tokio::sync::mpsc::channel::<FrameData>(4);
    let r = hub.subscribe(&id, subscriber(41), tx);
    assert_eq!(r, Err(StreamHubError { value: StreamHubErrorValue::StreamNotFound }));
}

#[test]
fn subscribe_waits_for_late_publisher() {
    let mut hub = StreamHub::new(1, true);
    let id = ident("app", "late");
    let (tx, mut rx) = tokio::sync::mpsc::channel::<FrameData>(16);
    assert!(hub.subscribe(&id, subscriber(51), tx).unwrap());
    // nothing yet
    assert!(rx.try_recv().is_err());
    hub.publish(&id, publisher(52)).unwrap();
    hub.broadcast_frame(&id, keyframe(5)).unwrap();
    assert!(frame_eq(&rx.try_recv().unwrap(), &keyframe(5)));
}

#[test]
fn duplicate_subscribe_replaces_channel() {
    let mut hub = StreamHub::new(1, true);
    let id = ident("app", "live");
    hub.publish(&id, publisher(1)).unwrap();
    let (tx1, mut rx1) = tokio::sync::mpsc::channel::<FrameData>(16);
    let (tx2, mut rx2) = tokio::sync::mpsc::channel::<FrameData>(16);
    assert!(hub.subscribe(&id, subscriber(61), tx1).unwrap());
    assert!(hub.subscribe(&id, subscriber(61), tx2).unwrap());
    let stats = hub.api_statistic(None, Some(&id), None);
    assert_eq!(stats[0].subscriber_count, 1);
    hub.broadcast_frame(&id, keyframe(1)).unwrap();
    // the old channel is closed, the new one receives
    assert!(matches!(rx1.try_recv(), Err(tokio::sync::mpsc::error::TryRecvError::Disconnected)));
    assert!(frame_eq(&rx2.try_recv().unwrap(), &keyframe(1)));
}

#[test]
fn gop_cache_keeps_bounded_keyframes() {
    let mut cache = GopCache::new(2);
    cache.save_frame_data(video_seq_header());
    cache.save_frame_data(audio_seq_header());
    for g in 0..5u32 {
        cache.save_frame_data(keyframe(g * 1000));
        cache.save_frame_data(inter_frame(g * 1000 + 33));
        cache.save_frame_data(inter_frame(g * 1000 + 66));
    }
    // at most two GOPs stay, and the buffer starts at a keyframe
    let kf_count = cache
        .frames
        .iter()
        .filter(|f| match f {
            FrameData::Video { data, .. } => data[0] >> 4 == 1 && data[1] != 0,
            _ => false,
        })
        .count();
    assert_eq!(kf_count, 2);
    assert!(frame_eq(&cache.frames[0], &keyframe(3000)));
    assert_eq!(cache.frames.len(), 6);
}

#[test]
fn gop_cache_discards_frames_before_first_keyframe() {
    let mut cache = GopCache::new(2);
    cache.save_frame_data(inter_frame(1));
    cache.save_frame_data(audio_frame(2));
    assert!(cache.frames.is_empty());
}

#[test]
fn gop_num_zero_caches_nothing() {
    let mut cache = GopCache::new(0);
    cache.save_frame_data(keyframe(0));
    cache.save_frame_data(inter_frame(33));
    assert!(cache.frames.is_empty());
    // sticky headers are still kept
    cache.save_frame_data(video_seq_header());
    assert!(cache.video_seq_header.is_some());
}

#[test]
fn gop_cache_resets_on_new_sequence_header() {
    let mut cache = GopCache::new(2);
    cache.save_frame_data(video_seq_header());
    cache.save_frame_data(keyframe(0));
    cache.save_frame_data(inter_frame(33));
    assert_eq!(cache.frames.len(), 2);
    cache.save_frame_data(video_seq_header());
    assert!(cache.frames.is_empty());
}

#[test]
fn statistics_top_n_orders_by_subscribers() {
    let mut hub = StreamHub::new(1, true);
    for (name, subs) in [("a", 1u128), ("b", 3), ("c", 2)] {
        let id = ident("app", name);
        hub.publish(&id, publisher(subs * 100)).unwrap();
        for k in 0..subs {
            let (tx, rx) = tokio::sync::mpsc::channel::<FrameData>(4);
            std::mem::forget(rx);
            assert!(hub.subscribe(&id, subscriber(subs * 10 + k), tx).unwrap());
        }
    }
    let stats = hub.api_statistic(Some(2), None, None);
    assert_eq!(stats.len(), 2);
    assert_eq!(stats[0].subscriber_count, 3);
    assert_eq!(stats[1].subscriber_count, 2);
    let all = hub.api_statistic(None, None, None);
    assert_eq!(all.len(), 3);
}

#[test]
fn statistics_by_identifier_and_uuid() {
    let mut hub = StreamHub::new(1, true);
    let id = ident("app", "live");
    hub.publish(&id, publisher(7)).unwrap();
    let (tx, _rx) = tokio::sync::mpsc::channel::<FrameData>(4);
    assert!(hub.subscribe(&id, subscriber(71), tx).unwrap());
    let (tx2, _rx2) = tokio::sync::mpsc::channel::<FrameData>(4);
    assert!(hub.subscribe(&id, subscriber(72), tx2).unwrap());
    let stats = hub.api_statistic(None, Some(&id), Some(Uuid { value: 72 }));
    assert_eq!(stats.len(), 1);
    assert_eq!(stats[0].subscriber_count, 2);
    assert_eq!(stats[0].subscriber_ids, vec![Uuid { value: 72 }]);
    assert_eq!(stats[0].publisher_id, Some(Uuid { value: 7 }));
    // an unknown stream reports nothing
    let none = hub.api_statistic(None, Some(&ident("app", "nosuch")), None);
    assert!(none.is_empty());
}

#[test]
fn unsubscribe_then_stream_destroyed_when_empty() {
    let mut hub = StreamHub::new(1, true);
    let id = ident("app", "live");
    let (tx, _rx) = tokio::sync::mpsc::channel::<FrameData>(4);
    assert!(hub.subscribe(&id, subscriber(81), tx).unwrap());
    hub.unsubscribe(&id, Uuid { value: 81 });
    // no publisher and no subscribers: the stream entry is gone
    assert!(hub.api_statistic(None, Some(&id), None).is_empty());
}

#[test]
fn metadata_is_sticky_and_replayed_first() {
    let mut hub = StreamHub::new(1, true);
    let id = ident("app", "live");
    hub.publish(&id, publisher(1)).unwrap();
    let meta = FrameData::MetaData { timestamp: 0, data: vec![0x02, 0x00, 0x01, 0x40] };
    hub.broadcast_frame(&id, meta).unwrap();
    hub.broadcast_frame(&id, video_seq_header()).unwrap();
    hub.broadcast_frame(&id, keyframe(0)).unwrap();
    let (tx, mut rx) = tokio::sync::mpsc::channel::<FrameData>(16);
    assert!(hub.subscribe(&id, subscriber(91), tx).unwrap());
    let first = rx.try_recv().unwrap();
    assert!(matches!(first, FrameData::MetaData { .. }));
    let second = rx.try_recv().unwrap();
    assert!(frame_eq(&second, &video_seq_header()));
    let third = rx.try_recv().unwrap();
    assert!(frame_eq(&third, &keyframe(0)));
}
