//! The decisions of the thread that keeps the connection to a receiver alive.

use vstd::prelude::*;
use vstd::string::StringExecFns;

verus! {

/// The receiver's own id.
pub const DESTINATION_ID: &'static str = "receiver-0";

/// The program's id on this connection.
pub const SENDER_ID: &'static str = "sender-0";

/// How often a waiting connection looks for the stream, in milliseconds.
pub const POLL_MILLIS: u64 = 100;

/// The media to load once the stream is ready: URL and HTTP content type (HLS
/// playlist for screen casts, a progressive audio type for audio-only casts).
#[derive(Debug)]
pub struct LoadMedia {
    pub url: String,
    pub content_type: String,
    /// Now-playing title shown by the receiver; `None` leaves it untitled.
    pub title: Option<String>,
    /// Secondary line under the title, e.g. the casting computer's hostname.
    pub artist: Option<String>,
}

#[derive(Debug)]
pub enum CastEvent {
    /// The receiver app launched and accepted the media URL.
    Playing,
    /// The connection ended or failed; the session should shut down.
    Ended(String),
}

/// The channel that handles a message.
#[derive(Clone, Copy, PartialEq, Eq, Structural, Debug)]
pub enum Channel {
    Connection,
    Heartbeat,
    Media,
    Receiver,
    /// None does; the message is passed on as it is.
    Raw,
}

/// Which channel handles a message, given which ones can: the first of
/// connection, heartbeat, media and receiver.
pub fn route(connection: bool, heartbeat: bool, media: bool, receiver: bool) -> (channel: Channel)
    ensures
        channel == if connection {
            Channel::Connection
        } else if heartbeat {
            Channel::Heartbeat
        } else if media {
            Channel::Media
        } else if receiver {
            Channel::Receiver
        } else {
            Channel::Raw
        },
{
    if connection {
        return Channel::Connection;
    }
    if heartbeat {
        return Channel::Heartbeat;
    }
    if media {
        return Channel::Media;
    }
    if receiver {
        return Channel::Receiver;
    }
    Channel::Raw
}

/// Whether the stream is ready.
#[derive(Clone, Copy, PartialEq, Eq, Structural, Debug)]
pub enum MediaPoll {
    Ready,
    /// Not yet.
    Empty,
    /// It never will be: the session is gone.
    Closed,
}

/// What to do while waiting for the stream.
#[derive(Clone, Copy, PartialEq, Eq, Structural, Debug)]
pub enum WaitStep {
    /// Stop the receiver app; the connection ends well.
    StopApp,
    Load,
    /// Look again after the poll interval.
    Sleep,
    /// Stop the receiver app; the connection fails.
    Abandon,
}

/// Decides while the encoder is warming up. A stop request, or the session
/// failing before there is a stream, still gets the receiver app shut down.
pub fn await_media(stop: bool, poll: MediaPoll) -> (step: WaitStep)
    ensures
        step == if stop {
            WaitStep::StopApp
        } else {
            match poll {
                MediaPoll::Ready => WaitStep::Load,
                MediaPoll::Empty => WaitStep::Sleep,
                MediaPoll::Closed => WaitStep::Abandon,
            }
        },
{
    if stop {
        return WaitStep::StopApp;
    }
    match poll {
        MediaPoll::Ready => WaitStep::Load,
        MediaPoll::Empty => WaitStep::Sleep,
        MediaPoll::Closed => WaitStep::Abandon,
    }
}

/// What a connection that was abandoned while waiting fails with.
pub fn abandoned() -> (message: String)
    ensures
        message@ == "session ended before the stream was ready"@,
{
    "session ended before the stream was ready".to_owned()
}

/// Whether the receiver is told what is playing: when there is a title or an
/// artist to show.
pub fn has_metadata(media: &LoadMedia) -> (metadata: bool)
    ensures
        metadata == (media.title is Some || media.artist is Some),
{
    media.title.is_some() || media.artist.is_some()
}

/// What came in on a connection that is kept alive.
pub enum Received {
    /// The device asks whether the sender is still there.
    Ping,
    Other,
    /// The connection failed, with the reason.
    Lost(String),
}

/// What to do about it.
pub enum KeepAlive {
    Pong,
    Continue,
    /// The connection ends well.
    Finish,
    /// The connection fails, with the reason.
    Fail(String),
}

/// Decides on what came in. The device's pings are answered, because the
/// receiver app tears itself down when its last sender disappears. A connection
/// that fails after a stop request has ended as wanted.
pub fn keep_alive(received: Received, stop: bool) -> (step: KeepAlive)
    ensures
        match received {
            Received::Ping => step is Pong,
            Received::Other => step is Continue,
            Received::Lost(reason) => if stop {
                step is Finish
            } else {
                step matches KeepAlive::Fail(message) && message@ == "connection lost: "@
                    + reason@
            },
        },
{
    match received {
        Received::Ping => KeepAlive::Pong,
        Received::Other => KeepAlive::Continue,
        Received::Lost(reason) => {
            if stop {
                return KeepAlive::Finish;
            }
            let mut message = "connection lost: ".to_owned();
            message.append(reason.as_str());
            KeepAlive::Fail(message)
        },
    }
}

/// How the session is told that the connection is over: with the error it
/// failed with, or that it was stopped.
pub fn ended_event(result: Result<(), String>) -> (event: CastEvent)
    ensures
        event matches CastEvent::Ended(reason) && reason@ == match result {
            Ok(()) => "stopped"@,
            Err(error) => error@,
        },
{
    match result {
        Ok(()) => CastEvent::Ended("stopped".to_owned()),
        Err(error) => CastEvent::Ended(error),
    }
}

/// A channel gets the messages that it can handle and that no channel ahead of
/// it can; what none can handle is passed on, and nothing else is.
pub proof fn law_messages_go_to_the_first_that_can(
    connection: bool,
    heartbeat: bool,
    media: bool,
    receiver: bool,
    channel: Channel,
)
    requires
        call_ensures(route, (connection, heartbeat, media, receiver), channel),
    ensures
        channel == Channel::Connection <==> connection,
        channel == Channel::Heartbeat <==> heartbeat && !connection,
        channel == Channel::Media <==> media && !connection && !heartbeat,
        channel == Channel::Receiver <==> receiver && !connection && !heartbeat && !media,
        channel == Channel::Raw <==> !connection && !heartbeat && !media && !receiver,
{
}

/// The stream is loaded once it is ready, and only while nobody asked to stop;
/// in every case but that and waiting the receiver app is shut down.
pub proof fn law_only_a_ready_stream_is_loaded(stop: bool, poll: MediaPoll, step: WaitStep)
    requires
        call_ensures(await_media, (stop, poll), step),
    ensures
        step == WaitStep::Load <==> poll == MediaPoll::Ready && !stop,
        step == WaitStep::Sleep <==> poll == MediaPoll::Empty && !stop,
        step == WaitStep::Abandon <==> poll == MediaPoll::Closed && !stop,
        step == WaitStep::StopApp <==> stop,
{
}

/// Pings are answered whatever else goes on, and only a lost connection ends:
/// well when that was asked for, and with its reason when it was not.
pub proof fn law_lost_connections_end_as_wanted_or_fail(
    received: Received,
    stop: bool,
    step: KeepAlive,
)
    requires
        call_ensures(keep_alive, (received, stop), step),
    ensures
        step is Pong <==> received is Ping,
        step is Continue <==> received is Other,
        step is Finish <==> received is Lost && stop,
        step is Fail <==> received is Lost && !stop,
        step matches KeepAlive::Fail(message) ==> message@ == "connection lost: "@
            + received->Lost_0@,
{
}

/// The receiver is told what is playing unless there is neither a title nor an
/// artist.
pub proof fn law_titles_and_artists_are_shown(media: LoadMedia, metadata: bool)
    requires
        call_ensures(has_metadata, (&media,), metadata),
    ensures
        !metadata <==> media.title is None && media.artist is None,
{
}

/// A session hears why its connection ended: the error word for word, or that it
/// was stopped.
pub proof fn law_the_end_is_told_with_its_reason(
    stopped: CastEvent,
    error: String,
    failed: CastEvent,
)
    requires
        call_ensures(ended_event, (Ok(()),), stopped),
        call_ensures(ended_event, (Err(error),), failed),
    ensures
        stopped matches CastEvent::Ended(reason) && reason@ == "stopped"@,
        failed matches CastEvent::Ended(reason) && reason@ == error@,
{
}

/// A connection that was abandoned says that the session ended too early.
pub proof fn law_abandoned_connections_say_so(message: String)
    requires
        call_ensures(abandoned, (), message),
    ensures
        message@ == "session ended before the stream was ready"@,
{
}

} // verus!
