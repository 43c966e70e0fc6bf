use catacomb::desktop::{grid_selection, GridSlot, GridView};

fn slot(channel: usize, playlist: Option<usize>, resumable: bool, has_mtime: bool, matches: bool) -> GridSlot {
    GridSlot { channel, playlist, resumable, has_mtime, matches }
}

fn library() -> Vec<GridSlot> {
    vec![
        slot(0, None, true, true, true),
        slot(0, Some(0), false, true, true),
        slot(0, Some(1), true, false, true),
        slot(1, None, false, false, true),
        slot(1, Some(0), true, true, false),
    ]
}

#[test]
fn grid_views_select_their_videos() {
    let lib = library();
    assert_eq!(grid_selection(GridView::All, &lib), vec![0, 1, 2, 3]);
    assert_eq!(grid_selection(GridView::ContinueWatching, &lib), vec![0, 2]);
    assert_eq!(grid_selection(GridView::Recent, &lib), vec![0, 1]);
    assert_eq!(grid_selection(GridView::Channel(0), &lib), vec![0, 1, 2]);
    assert_eq!(grid_selection(GridView::Channel(1), &lib), vec![3]);
    assert_eq!(grid_selection(GridView::Playlist(0, 1), &lib), vec![2]);
    assert_eq!(grid_selection(GridView::Playlist(1, 0), &lib), Vec::<usize>::new());
    assert!(grid_selection(GridView::Channels, &lib).is_empty());
    assert!(grid_selection(GridView::Music, &lib).is_empty());
    assert!(grid_selection(GridView::Channel(7), &lib).is_empty());
}
